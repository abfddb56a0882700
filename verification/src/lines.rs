//! Splitting a corpus into its lines.
//!
//! A line is a maximal stretch of the corpus delimited by line breaks, with
//! the delimiters stripped. A line break is either a bare `'\n'` or the pair
//! `"\r\n"`; a `'\r'` not followed by `'\n'` is ordinary line content. The
//! final line needs no terminator, and a corpus that ends with a line break
//! has no empty final line.

use vstd::prelude::*;
use vstd::string::StrSliceExecFns;

verus! {

/// Prepend a character to the first line of a line sequence, opening a new
/// first line if there is none.
pub open spec fn cons_first(c: char, ls: Seq<Seq<char>>) -> Seq<Seq<char>> {
    if ls.len() == 0 {
        seq![seq![c]]
    } else {
        seq![seq![c] + ls[0]] + ls.drop_first()
    }
}

/// The lines of a corpus: split on `'\n'`, treating a `'\r'` directly before
/// a `'\n'` as part of the line terminator, and keeping an unterminated final
/// line. The empty corpus has no lines.
pub open spec fn spec_lines(s: Seq<char>) -> Seq<Seq<char>>
    decreases s.len(),
{
    if s.len() == 0 {
        Seq::empty()
    } else if s[0] == '\n' {
        seq![Seq::<char>::empty()] + spec_lines(s.drop_first())
    } else if s[0] == '\r' && 1 < s.len() && s[1] == '\n' {
        seq![Seq::<char>::empty()] + spec_lines(s.subrange(2, s.len() as int))
    } else {
        cons_first(s[0], spec_lines(s.drop_first()))
    }
}

/// The character sequences of a sequence of string slices.
pub open spec fn views_of(ls: Seq<&str>) -> Seq<Seq<char>> {
    ls.map_values(|l: &str| l@)
}

/// The content of a line terminated by the `'\n'` at position `k`: everything
/// before it, less a `'\r'` directly before it.
pub open spec fn line_before(s: Seq<char>, k: int) -> Seq<char> {
    if k > 0 && s[k - 1] == '\r' {
        s.subrange(0, k - 1)
    } else {
        s.subrange(0, k)
    }
}

/// Unfolding `spec_lines` at the first `'\n'` of the corpus: the first line is
/// what stands before it, and the remaining lines are those of what follows it.
pub proof fn lemma_lines_first_break(s: Seq<char>, k: int)
    requires
        0 <= k < s.len(),
        s[k] == '\n',
        forall|j: int| 0 <= j < k ==> s[j] != '\n',
    ensures
        spec_lines(s) == seq![line_before(s, k)] + spec_lines(s.subrange(k + 1, s.len() as int)),
    decreases s.len(),
{
    if k == 0 {
        assert(s.drop_first() =~= s.subrange(1, s.len() as int));
        assert(line_before(s, 0) =~= Seq::<char>::empty());
        assert(seq![line_before(s, 0)] =~= seq![Seq::<char>::empty()]);
    } else if k == 1 && s[0] == '\r' {
        assert(line_before(s, 1) =~= Seq::<char>::empty());
        assert(seq![line_before(s, 1)] =~= seq![Seq::<char>::empty()]);
    } else {
        let t = s.drop_first();
        assert(t[k - 1] == s[k as int]);
        assert(forall|j: int| 0 <= j < k - 1 ==> t[j] == s[j + 1] && s[j + 1] != '\n');
        lemma_lines_first_break(t, k - 1);
        assert(t.subrange(k, t.len() as int) =~= s.subrange(k + 1, s.len() as int));
        if k == 1 {
            // Here s[0] is neither '\n' nor a '\r' joined to the '\n' at index 1.
            assert(s[0] != '\r');
            assert(line_before(t, 0) =~= Seq::<char>::empty());
            assert(line_before(s, 1) =~= seq![s[0]]);
            assert(seq![s[0]] + line_before(t, 0) =~= line_before(s, 1));
        } else {
            assert(t[k - 2] == s[k - 1]);
            if s[k - 1] == '\r' {
                assert(line_before(t, k - 1) =~= t.subrange(0, k - 2));
                assert(seq![s[0]] + t.subrange(0, k - 2) =~= s.subrange(0, k - 1));
                assert(seq![s[0]] + line_before(t, k - 1) =~= line_before(s, k));
            } else {
                assert(seq![s[0]] + t.subrange(0, k - 1) =~= s.subrange(0, k as int));
                assert(seq![s[0]] + line_before(t, k - 1) =~= line_before(s, k));
            }
        }
        let rest = spec_lines(t.subrange(k, t.len() as int));
        assert(spec_lines(t) == seq![line_before(t, k - 1)] + rest);
        assert(spec_lines(t).len() > 0);
        assert(spec_lines(t)[0] == line_before(t, k - 1));
        assert(spec_lines(s) == cons_first(s[0], spec_lines(t)));
        assert(spec_lines(t).drop_first() =~= rest);
        assert(spec_lines(s) =~= seq![line_before(s, k)] + rest);
    }
}

/// A corpus without any `'\n'` is one single line: itself, whole.
pub proof fn lemma_lines_no_break(s: Seq<char>)
    requires
        s.len() > 0,
        forall|j: int| 0 <= j < s.len() ==> s[j] != '\n',
    ensures
        spec_lines(s) == seq![s],
    decreases s.len(),
{
    let t = s.drop_first();
    if t.len() == 0 {
        assert(spec_lines(s) == cons_first(s[0], spec_lines(t)));
        assert(seq![s[0]] =~= s);
        assert(spec_lines(s) =~= seq![s]);
    } else {
        assert(forall|j: int| 0 <= j < t.len() ==> t[j] == s[j + 1] && s[j + 1] != '\n');
        lemma_lines_no_break(t);
        assert(spec_lines(s) == cons_first(s[0], seq![t]));
        assert(seq![s[0]] + t =~= s);
        assert(spec_lines(s) =~= seq![s]);
    }
}

/// Split a corpus into its lines, as slices of the corpus itself.
pub fn split_lines<'a>(contents: &'a str) -> (r: Vec<&'a str>)
    ensures
        views_of(r@) == spec_lines(contents@),
{
    let n = contents.unicode_len();
    let mut out: Vec<&'a str> = Vec::new();
    let mut start: usize = 0;
    let mut i: usize = 0;
    proof {
        assert(contents@.subrange(0, n as int) =~= contents@);
        assert(views_of(out@) =~= Seq::<Seq<char>>::empty());
        assert(views_of(out@) + spec_lines(contents@) =~= spec_lines(contents@));
    }
    while i < n
        invariant
            start <= i <= n,
            n == contents@.len(),
            spec_lines(contents@) == views_of(out@) + spec_lines(
                contents@.subrange(start as int, n as int),
            ),
            forall|j: int| start <= j < i ==> contents@[j] != '\n',
        decreases n - i,
    {
        let c = contents.get_char(i);
        if c == '\n' {
            let end = if i > start && contents.get_char(i - 1) == '\r' {
                i - 1
            } else {
                i
            };
            let line = contents.substring_char(start, end);
            proof {
                let u = contents@.subrange(start as int, n as int);
                let k = i - start;
                assert(u[k as int] == contents@[i as int]);
                assert(forall|j: int|
                    0 <= j < k ==> u[j] == contents@[start + j] && contents@[start + j] != '\n');
                lemma_lines_first_break(u, k as int);
                assert(line_before(u, k as int) =~= contents@.subrange(start as int, end as int));
                assert(u.subrange(k + 1, u.len() as int) =~= contents@.subrange(
                    i + 1,
                    n as int,
                ));
                assert(views_of(out@.push(line)) =~= views_of(out@).push(line@));
                assert(views_of(out@.push(line)) + spec_lines(contents@.subrange(i + 1, n as int))
                    =~= views_of(out@) + spec_lines(contents@.subrange(start as int, n as int)));
            }
            out.push(line);
            start = i + 1;
        }
        i += 1;
    }
    if start < n {
        let line = contents.substring_char(start, n);
        proof {
            let u = contents@.subrange(start as int, n as int);
            assert(forall|j: int|
                0 <= j < u.len() ==> u[j] == contents@[start + j] && contents@[start + j] != '\n');
            lemma_lines_no_break(u);
            assert(views_of(out@.push(line)) =~= views_of(out@).push(line@));
            assert(views_of(out@.push(line)) =~= views_of(out@) + spec_lines(u));
        }
        out.push(line);
    } else {
        proof {
            assert(contents@.subrange(start as int, n as int) =~= Seq::<char>::empty());
            assert(views_of(out@) + spec_lines(Seq::<char>::empty()) =~= views_of(out@));
        }
    }
    out
}

} // verus!
