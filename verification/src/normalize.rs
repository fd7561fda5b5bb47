//! The normalizer: splits a raw message into lines, replaces ASCII control
//! characters with spaces, collapses runs of spaces, trims, and drops the
//! lines that are left empty.
use vstd::prelude::*;

use crate::text::{
    collapse_spaces, ctrl_to_space, is_ctrl, lemma_collapse_ends, lemma_collapse_identity,
    lemma_collapse_no_adjacent, lemma_collapse_preserves, lemma_collapse_push,
    lemma_trim_left_is_suffix, lemma_trim_left_push, lemma_trim_right_drop,
    lemma_trim_right_is_prefix, no_adjacent_spaces, string_of, trim_left, trim_right, trim_spaces,
};

verus! {

/// One segment cleaned: control characters replaced by spaces, runs of
/// spaces collapsed to one, surrounding spaces trimmed.
pub open spec fn strip_spec(s: Seq<char>) -> Seq<char> {
    trim_spaces(collapse_spaces(s.map_values(|c: char| ctrl_to_space(c))))
}

/// A cleaned line as the normalizer guarantees it: non-empty, no surrounding
/// spaces, no two adjacent spaces, and no control characters.
pub open spec fn is_clean_line(l: Seq<char>) -> bool {
    l.len() > 0 && l[0] != ' ' && l.last() != ' ' && no_adjacent_spaces(l) && forall|i: int|
        0 <= i < l.len() ==> !is_ctrl(#[trigger] l[i])
}

/// Cleans one segment of the message in place of the raw characters.
fn strip_chars(v: &Vec<char>) -> (r: Vec<char>)
    ensures
        r@ == strip_spec(v@),
{
    let ghost m = v@.map_values(|c: char| ctrl_to_space(c));
    let mut out: Vec<char> = Vec::new();
    let mut i: usize = 0;
    while i < v.len()
        invariant
            i <= v.len(),
            m == v@.map_values(|c: char| ctrl_to_space(c)),
            out@ == trim_left(collapse_spaces(m.take(i as int))),
            out@.len() > 0 ==> out@[0] != ' ',
            no_adjacent_spaces(out@),
        decreases v.len() - i,
    {
        let c0 = v[i];
        let c: char = if (c0 as u32) < 0x20 || (c0 as u32) == 0x7f {
            ' '
        } else {
            c0
        };
        proof {
            assert(c == ctrl_to_space(v@[i as int]));
            assert(m.take(i + 1) =~= m.take(i as int).push(c));
            lemma_collapse_push(m.take(i as int), c);
            lemma_trim_left_push(collapse_spaces(m.take(i as int)), c);
            lemma_collapse_ends(m.take(i as int));
            lemma_trim_left_is_suffix(collapse_spaces(m.take(i as int)));
        }
        if c != ' ' {
            out.push(c);
            proof {
                if out@.len() == 1 {
                    assert(Seq::<char>::empty().push(c) =~= seq![c]);
                }
            }
        } else if out.len() > 0 && out[out.len() - 1] != ' ' {
            out.push(' ');
        } else {
            proof {
                let p = m.take(i as int);
                let cp = collapse_spaces(p);
                if out@.len() == 0 {
                    if p.len() > 0 {
                        assert(cp.last() == p.last());
                        assert(cp[cp.len() - 1] == ' ');
                    } else {
                        assert(p =~= Seq::<char>::empty());
                        assert(cp =~= Seq::<char>::empty());
                        assert(trim_left(cp.push(' ')) == trim_left(collapse_spaces(
                            m.take(i + 1),
                        )));
                    }
                } else {
                    assert(out@.last() == cp.last());
                    assert(cp.last() == p.last());
                }
            }
        }
        i = i + 1;
    }
    proof {
        assert(m.take(v.len() as int) =~= m);
    }
    if out.len() > 0 && out[out.len() - 1] == ' ' {
        proof {
            lemma_trim_right_drop(out@);
        }
        out.pop();
    }
    out
}

/// Cleans one line: control characters become spaces, runs of spaces
/// collapse to a single space, and surrounding whitespace is trimmed away.
pub fn strip(value: &str) -> (r: String)
    ensures
        r@ == strip_spec(value@),
{
    let chars = crate::text::chars_of(value);
    let stripped = strip_chars(&chars);
    string_of(&stripped)
}

/// A non-empty cleaned segment satisfies every guarantee of a normalized
/// line.
pub proof fn lemma_strip_clean(s: Seq<char>)
    ensures
        strip_spec(s).len() > 0 ==> is_clean_line(strip_spec(s)),
{
    let m = s.map_values(|c: char| ctrl_to_space(c));
    let cm = collapse_spaces(m);
    let t1 = trim_left(cm);
    let r = trim_right(t1);
    if r.len() > 0 {
        lemma_collapse_no_adjacent(m);
        lemma_trim_left_is_suffix(cm);
        lemma_trim_right_is_prefix(t1);
        assert(r[0] == t1[0]);
        assert(r[0] != ' ');
        assert(r.last() != ' ');
        let k: int = cm.len() - t1.len();
        assert forall|j: int| 0 < j < r.len() implies !(r[j - 1] == ' ' && #[trigger] r[j]
            == ' ') by {
            assert(r[j] == t1[j]);
            assert(r[j - 1] == t1[j - 1]);
            assert(t1[j] == cm[k + j]);
            assert(t1[j - 1] == cm[k + j - 1]);
        }
        assert(forall|i: int| 0 <= i < m.len() ==> !is_ctrl(#[trigger] m[i]));
        lemma_collapse_preserves(m, |c: char| !is_ctrl(c));
        assert forall|i: int| 0 <= i < r.len() implies !is_ctrl(#[trigger] r[i]) by {
            assert(r[i] == t1[i]);
            assert(t1[i] == cm[k + i]);
        }
    }
}

/// Cleaning a sequence that is already clean changes nothing.
pub proof fn lemma_strip_identity(l: Seq<char>)
    requires
        is_clean_line(l),
    ensures
        strip_spec(l) == l,
{
    let m = l.map_values(|c: char| ctrl_to_space(c));
    assert(m =~= l);
    lemma_collapse_identity(l);
    assert(trim_left(l) == l);
    assert(trim_right(l) == l);
}

/// The segments of the message between its newline characters, in order.
/// Segments may be empty; an empty message has one empty segment.
pub open spec fn split_lines(s: Seq<char>) -> Seq<Seq<char>>
    decreases s.len(),
{
    if s.len() == 0 {
        seq![Seq::<char>::empty()]
    } else if s.last() == '\n' {
        split_lines(s.drop_last()).push(Seq::<char>::empty())
    } else {
        let rest = split_lines(s.drop_last());
        rest.drop_last().push(rest.last().push(s.last()))
    }
}

/// A cleaned segment, kept only when something of it is left.
pub open spec fn keep_line(seg: Seq<char>) -> Option<Seq<char>> {
    if strip_spec(seg).len() > 0 {
        Some(strip_spec(seg))
    } else {
        None
    }
}

/// The normalized lines of a raw message: each segment cleaned, the empty
/// ones dropped, input order kept.
pub open spec fn to_lines_spec(s: Seq<char>) -> Seq<Seq<char>> {
    split_lines(s).filter_map(|seg: Seq<char>| keep_line(seg))
}

/// Splitting always yields at least one segment.
pub proof fn lemma_split_len(s: Seq<char>)
    ensures
        split_lines(s).len() >= 1,
    decreases s.len(),
{
    if s.len() > 0 {
        lemma_split_len(s.drop_last());
    }
}

/// The lines (one per raw segment, empty ones dropped) that the message
/// yields.
pub fn to_lines(message: &str) -> (r: Vec<String>)
    ensures
        r@.map_values(|x: String| x@) == to_lines_spec(message@),
{
    let chars = crate::text::chars_of(message);
    let ghost keep = |seg: Seq<char>| keep_line(seg);
    let mut out: Vec<String> = Vec::new();
    let mut cur: Vec<char> = Vec::new();
    let mut i: usize = 0;
    while i < chars.len()
        invariant
            i <= chars.len(),
            chars@ == message@,
            keep == |seg: Seq<char>| keep_line(seg),
            split_lines(message@.take(i as int)).last() == cur@,
            split_lines(message@.take(i as int)).len() >= 1,
            out@.map_values(|x: String| x@) == split_lines(
                message@.take(i as int),
            ).drop_last().filter_map(keep),
        decreases chars.len() - i,
    {
        let ghost pre = split_lines(message@.take(i as int));
        let c = chars[i];
        proof {
            assert(message@.take(i + 1) =~= message@.take(i as int).push(c));
            assert(message@.take(i + 1).drop_last() =~= message@.take(i as int));
        }
        if c == '\n' {
            let stripped = strip_chars(&cur);
            proof {
                let post = split_lines(message@.take(i + 1));
                assert(post == pre.push(Seq::<char>::empty()));
                assert(post.drop_last() =~= pre);
                assert(pre.drop_last().push(pre.last()) =~= pre);
                assert(pre.filter_map(keep) == pre.drop_last().filter_map(keep) + (match keep(
                    pre.last(),
                ) {
                    Some(l) => seq![l],
                    None => Seq::<Seq<char>>::empty(),
                }));
            }
            if stripped.len() > 0 {
                let line = string_of(&stripped);
                out.push(line);
                proof {
                    assert(out@.map_values(|x: String| x@) =~= out@.drop_last().map_values(
                        |x: String| x@,
                    ).push(strip_spec(cur@)));
                    assert(out@.map_values(|x: String| x@) =~= split_lines(
                        message@.take(i + 1),
                    ).drop_last().filter_map(keep));
                }
            } else {
                proof {
                    assert(out@.map_values(|x: String| x@) =~= split_lines(
                        message@.take(i + 1),
                    ).drop_last().filter_map(keep));
                }
            }
            cur = Vec::new();
        } else {
            cur.push(c);
            proof {
                let post = split_lines(message@.take(i + 1));
                assert(post == pre.drop_last().push(pre.last().push(c)));
                assert(post.last() == cur@);
                assert(post.drop_last() =~= pre.drop_last());
            }
        }
        i = i + 1;
    }
    let stripped = strip_chars(&cur);
    proof {
        assert(message@.take(chars.len() as int) =~= message@);
        let whole = split_lines(message@);
        assert(whole.filter_map(keep) == whole.drop_last().filter_map(keep) + (match keep(
            whole.last(),
        ) {
            Some(l) => seq![l],
            None => Seq::<Seq<char>>::empty(),
        }));
    }
    if stripped.len() > 0 {
        let line = string_of(&stripped);
        out.push(line);
        proof {
            assert(out@.map_values(|x: String| x@) =~= out@.drop_last().map_values(
                |x: String| x@,
            ).push(strip_spec(cur@)));
            assert(out@.map_values(|x: String| x@) =~= to_lines_spec(message@));
        }
    } else {
        proof {
            assert(out@.map_values(|x: String| x@) =~= to_lines_spec(message@));
        }
    }
    out
}

/// Every member of the sequence is a clean line.
pub open spec fn all_clean(ls: Seq<Seq<char>>) -> bool {
    forall|i: int| 0 <= i < ls.len() ==> is_clean_line(#[trigger] ls[i])
}

/// Every line a list of segments yields is clean.
proof fn lemma_filter_map_clean(ls: Seq<Seq<char>>)
    ensures
        all_clean(ls.filter_map(|seg: Seq<char>| keep_line(seg))),
    decreases ls.len(),
{
    let keep = |seg: Seq<char>| keep_line(seg);
    if ls.len() == 0 {
    } else {
        lemma_filter_map_clean(ls.drop_last());
        lemma_strip_clean(ls.last());
        let rest = ls.drop_last().filter_map(keep);
        let whole = ls.filter_map(keep);
        assert forall|i: int| 0 <= i < whole.len() implies is_clean_line(#[trigger] whole[i]) by {
            if i < rest.len() {
                assert(whole[i] == rest[i]);
            }
        }
    }
}

/// Every line the normalizer yields is a non-empty, trimmed, collapsed line
/// without control characters; in particular none is empty or all spaces.
pub proof fn lemma_to_lines_clean(s: Seq<char>)
    ensures
        all_clean(to_lines_spec(s)),
{
    lemma_filter_map_clean(split_lines(s));
}

/// The normalizer is the segment-wise cleaning followed by dropping the
/// segments that are left empty: each surviving line is the cleaned form of
/// its segment, and the segments' relative order is kept.
pub proof fn lemma_to_lines_order(s: Seq<char>)
    ensures
        to_lines_spec(s) == split_lines(s).map_values(|seg: Seq<char>| strip_spec(seg)).filter(
            |l: Seq<char>| l.len() > 0,
        ),
{
    lemma_filter_map_as_filter(split_lines(s));
}

/// Keeping the cleaned non-empty segments is cleaning them all and then
/// dropping the empty ones.
proof fn lemma_filter_map_as_filter(ls: Seq<Seq<char>>)
    ensures
        ls.filter_map(|seg: Seq<char>| keep_line(seg)) == ls.map_values(
            |seg: Seq<char>| strip_spec(seg),
        ).filter(|l: Seq<char>| l.len() > 0),
    decreases ls.len(),
{
    reveal(Seq::filter);
    let keep = |seg: Seq<char>| keep_line(seg);
    let clean = |seg: Seq<char>| strip_spec(seg);
    let nonempty = |l: Seq<char>| l.len() > 0;
    if ls.len() == 0 {
        assert(ls.map_values(clean) =~= Seq::<Seq<char>>::empty());
        assert(ls.filter_map(keep) =~= ls.map_values(clean).filter(nonempty));
    } else {
        lemma_filter_map_as_filter(ls.drop_last());
        let mapped = ls.map_values(clean);
        assert(mapped.drop_last() =~= ls.drop_last().map_values(clean));
        assert(mapped.last() == clean(ls.last()));
        assert(mapped == mapped.drop_last().push(mapped.last())) by {
            assert(mapped.drop_last().push(mapped.last()) =~= mapped);
        }
        if nonempty(mapped.last()) {
            assert(ls.filter_map(keep) =~= mapped.filter(nonempty));
        } else {
            assert(ls.filter_map(keep) =~= mapped.filter(nonempty));
        }
    }
}

/// The lines joined back into one message, one newline between two lines.
pub open spec fn join_lines(ls: Seq<Seq<char>>) -> Seq<char>
    decreases ls.len(),
{
    if ls.len() == 0 {
        Seq::<char>::empty()
    } else if ls.len() == 1 {
        ls[0]
    } else {
        join_lines(ls.drop_last()) + seq!['\n'] + ls.last()
    }
}

/// A message without a newline is one single segment.
proof fn lemma_split_no_newline(l: Seq<char>)
    requires
        forall|i: int| 0 <= i < l.len() ==> #[trigger] l[i] != '\n',
    ensures
        split_lines(l) == seq![l],
    decreases l.len(),
{
    if l.len() == 0 {
        assert(split_lines(l) =~~= seq![l]);
    } else {
        assert(l.last() == l[l.len() - 1]);
        lemma_split_no_newline(l.drop_last());
        let rest = split_lines(l.drop_last());
        assert(rest.drop_last() =~= Seq::<Seq<char>>::empty());
        assert(rest.last() == l.drop_last());
        assert(split_lines(l) == rest.drop_last().push(rest.last().push(l.last())));
        assert(l.drop_last().push(l.last()) =~= l);
        assert(Seq::<Seq<char>>::empty().push(l) =~= seq![l]);
    }
}

/// Appending newline-free text extends the final segment and nothing else.
proof fn lemma_split_append_no_newline(u: Seq<char>, v: Seq<char>)
    requires
        forall|i: int| 0 <= i < v.len() ==> #[trigger] v[i] != '\n',
    ensures
        split_lines(u + v) == split_lines(u).drop_last().push(split_lines(u).last() + v),
    decreases v.len(),
{
    lemma_split_len(u);
    if v.len() == 0 {
        assert(u + v =~= u);
        assert(split_lines(u).drop_last().push(split_lines(u).last() + v) =~= split_lines(u));
    } else {
        let w = v.drop_last();
        let c = v.last();
        assert(v[v.len() - 1] != '\n');
        assert(forall|i: int| 0 <= i < w.len() ==> #[trigger] w[i] != '\n');
        lemma_split_append_no_newline(u, w);
        assert(u + v =~= (u + w).push(c));
        assert((u + v).last() == c);
        assert((u + v).drop_last() =~= u + w);
        let rest = split_lines(u + w);
        assert(split_lines(u + v) == rest.drop_last().push(rest.last().push(c)));
        assert(rest.drop_last() =~= split_lines(u).drop_last());
        assert(rest.last() == split_lines(u).last() + w);
        assert((split_lines(u).last() + w).push(c) =~= split_lines(u).last() + v);
    }
}

/// Splitting the joined lines gives the lines back, as long as none of them
/// holds a newline.
proof fn lemma_split_join(ls: Seq<Seq<char>>)
    requires
        ls.len() > 0,
        forall|i: int, j: int|
            0 <= i < ls.len() && 0 <= j < ls[i].len() ==> #[trigger] ls[i][j] != '\n',
    ensures
        split_lines(join_lines(ls)) == ls,
    decreases ls.len(),
{
    if ls.len() == 1 {
        assert(forall|j: int| 0 <= j < ls[0].len() ==> #[trigger] ls[0][j] != '\n');
        lemma_split_no_newline(ls[0]);
        assert(seq![ls[0]] =~= ls);
    } else {
        let front = ls.drop_last();
        assert(forall|i: int, j: int|
            0 <= i < front.len() && 0 <= j < front[i].len() ==> #[trigger] front[i][j] != '\n');
        lemma_split_join(front);
        let x = join_lines(front);
        assert(join_lines(ls) == x + seq!['\n'] + ls.last());
        assert((x + seq!['\n']).last() == '\n');
        assert((x + seq!['\n']).drop_last() =~= x);
        assert(split_lines(x + seq!['\n']) == split_lines(x).push(Seq::<char>::empty()));
        assert(forall|j: int| 0 <= j < ls.last().len() ==> #[trigger] ls.last()[j] != '\n') by {
            assert(ls.last() == ls[ls.len() - 1]);
        }
        lemma_split_append_no_newline(x + seq!['\n'], ls.last());
        assert(x + seq!['\n'] + ls.last() =~= (x + seq!['\n']) + ls.last());
        let sp = split_lines(x + seq!['\n']);
        assert(sp.drop_last() =~= front);
        assert(sp.last() + ls.last() =~= ls.last());
        assert(front.push(ls.last()) =~= ls);
    }
}

/// Segments that are already clean lines all survive cleaning unchanged.
proof fn lemma_filter_map_all_kept(ls: Seq<Seq<char>>)
    requires
        forall|i: int| 0 <= i < ls.len() ==> is_clean_line(#[trigger] ls[i]),
    ensures
        ls.filter_map(|seg: Seq<char>| keep_line(seg)) == ls,
    decreases ls.len(),
{
    let keep = |seg: Seq<char>| keep_line(seg);
    if ls.len() == 0 {
        assert(ls.filter_map(keep) =~= ls);
    } else {
        assert(is_clean_line(ls.last())) by {
            assert(ls.last() == ls[ls.len() - 1]);
        }
        lemma_strip_identity(ls.last());
        lemma_filter_map_all_kept(ls.drop_last());
        assert(ls.filter_map(keep) =~= ls.drop_last().push(ls.last()));
        assert(ls.drop_last().push(ls.last()) =~= ls);
    }
}

/// Normalizing is idempotent: a sequence of clean lines, joined with
/// newlines and normalized again, comes back unchanged.
pub proof fn lemma_to_lines_idempotent(ls: Seq<Seq<char>>)
    requires
        all_clean(ls),
    ensures
        to_lines_spec(join_lines(ls)) == ls,
{
    if ls.len() == 0 {
        let keep = |seg: Seq<char>| keep_line(seg);
        let sp = split_lines(Seq::<char>::empty());
        assert(sp == seq![Seq::<char>::empty()]);
        assert(strip_spec(Seq::<char>::empty()).len() == 0);
        assert(keep(sp.last()) is None);
        assert(sp.drop_last() =~= Seq::<Seq<char>>::empty());
        assert(Seq::<Seq<char>>::empty().filter_map(keep) =~= Seq::<Seq<char>>::empty());
        assert(sp.filter_map(keep) == sp.drop_last().filter_map(keep));
        assert(to_lines_spec(Seq::<char>::empty()) =~= ls);
    } else {
        assert forall|i: int, j: int|
            0 <= i < ls.len() && 0 <= j < ls[i].len() implies #[trigger] ls[i][j] != '\n' by {
            assert(is_clean_line(ls[i]));
            assert(!is_ctrl(ls[i][j]));
        }
        lemma_split_join(ls);
        lemma_filter_map_all_kept(ls);
    }
}

/// Normalizing what the normalizer already produced changes nothing.
pub proof fn lemma_to_lines_stable(s: Seq<char>)
    ensures
        to_lines_spec(join_lines(to_lines_spec(s))) == to_lines_spec(s),
{
    lemma_to_lines_clean(s);
    lemma_to_lines_idempotent(to_lines_spec(s));
}

} // verus!
