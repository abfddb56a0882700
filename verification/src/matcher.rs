//! Selecting the lines of a corpus that contain a query.
//!
//! The case-sensitive search keeps exactly the lines with the query as a
//! contiguous substring. The case-insensitive search folds both the query and
//! each line to lowercase before the same test, but returns the lines of the
//! corpus untouched.

use vstd::prelude::*;
use vstd::string::StrSliceExecFns;

use crate::lines::spec_lines;
use crate::lines::split_lines;
use crate::lines::views_of;

verus! {

/// The pattern occurs in `text` starting at position `i`.
pub open spec fn contains_at(text: Seq<char>, pat: Seq<char>, i: int) -> bool {
    0 <= i && i + pat.len() <= text.len() && text.subrange(i, i + pat.len() as int) == pat
}

/// The pattern occurs somewhere in `text` as a contiguous substring.
pub open spec fn spec_contains(text: Seq<char>, pat: Seq<char>) -> bool {
    exists|i: int| contains_at(text, pat, i)
}

/// What `str::to_lowercase` returns for a given sequence of characters.
pub uninterp spec fn lower_of(s: Seq<char>) -> Seq<char>;

/// Relies on `str::to_lowercase`: the lowercase form of a string depends on
/// its characters alone, and the lowercase form of the empty string is empty.
#[verifier::external_body]
fn lowercase(s: &str) -> (r: String)
    ensures
        r@ == lower_of(s@),
        s@.len() == 0 ==> r@.len() == 0,
{
    s.to_lowercase()
}

/// A line passes the case-sensitive test when it contains the query as-is.
pub open spec fn sensitive_pred(q: Seq<char>) -> spec_fn(Seq<char>) -> bool {
    |l: Seq<char>| spec_contains(l, q)
}

/// A line passes the case-insensitive test when its lowercase form contains
/// the lowercase form of the query.
pub open spec fn insensitive_pred(q: Seq<char>) -> spec_fn(Seq<char>) -> bool {
    |l: Seq<char>| spec_contains(lower_of(l), lower_of(q))
}

/// The lines of the corpus that contain the query, in corpus order.
pub open spec fn spec_search(q: Seq<char>, c: Seq<char>) -> Seq<Seq<char>> {
    spec_lines(c).filter(sensitive_pred(q))
}

/// The lines of the corpus whose lowercase form contains the lowercase form
/// of the query, in corpus order.
pub open spec fn spec_search_insensitive(q: Seq<char>, c: Seq<char>) -> Seq<Seq<char>> {
    spec_lines(c).filter(insensitive_pred(q))
}

/// Whether the pattern occurs in `text` starting at position `i`.
fn match_at(text: &str, pat: &str, i: usize) -> (r: bool)
    requires
        i + pat@.len() <= text@.len(),
    ensures
        r == contains_at(text@, pat@, i as int),
{
    let n = text.unicode_len();
    let m = pat.unicode_len();
    let mut j: usize = 0;
    while j < m
        invariant
            n == text@.len(),
            m == pat@.len(),
            i + m <= text@.len(),
            j <= m,
            forall|t: int| 0 <= t < j ==> text@[i + t] == pat@[t],
        decreases m - j,
    {
        if text.get_char(i + j) != pat.get_char(j) {
            proof {
                if contains_at(text@, pat@, i as int) {
                    assert(text@.subrange(i as int, i + m as int)[j as int] == text@[i + j]);
                }
            }
            return false;
        }
        j += 1;
    }
    proof {
        assert(text@.subrange(i as int, i + m as int) =~= pat@);
    }
    true
}

/// Whether `text` contains `pat` as a contiguous substring of characters.
pub fn contains_substring(text: &str, pat: &str) -> (r: bool)
    ensures
        r == spec_contains(text@, pat@),
{
    let n = text.unicode_len();
    let m = pat.unicode_len();
    if m > n {
        return false;
    }
    let mut i: usize = 0;
    loop
        invariant
            n == text@.len(),
            m == pat@.len(),
            m <= n,
            i <= n - m,
            forall|k: int| 0 <= k < i ==> !contains_at(text@, pat@, k),
        decreases n - m - i,
    {
        if match_at(text, pat, i) {
            return true;
        }
        if i == n - m {
            proof {
                assert(forall|k: int| 0 <= k <= i ==> !contains_at(text@, pat@, k));
            }
            return false;
        }
        i += 1;
    }
}

/// The lines of `contents` that contain `query` as a contiguous substring,
/// byte-for-byte, in their original order and untouched.
pub fn search<'a>(query: &str, contents: &'a str) -> (r: Vec<&'a str>)
    ensures
        views_of(r@) == spec_search(query@, contents@),
{
    let ls = split_lines(contents);
    let mut out: Vec<&'a str> = Vec::new();
    let mut idx: usize = 0;
    proof {
        reveal(Seq::filter);
        assert(views_of(ls@).take(0) =~= Seq::<Seq<char>>::empty());
        assert(views_of(out@) =~= views_of(ls@).take(0).filter(sensitive_pred(query@)));
    }
    while idx < ls.len()
        invariant
            idx <= ls@.len(),
            views_of(ls@) == spec_lines(contents@),
            views_of(out@) == views_of(ls@).take(idx as int).filter(sensitive_pred(query@)),
        decreases ls@.len() - idx,
    {
        let line = ls[idx];
        let keep = contains_substring(line, query);
        proof {
            let prev = views_of(ls@).take(idx as int);
            assert(views_of(ls@).take(idx + 1) =~= prev.push(line@));
            prev.lemma_filter_push(line@, sensitive_pred(query@));
            if keep {
                assert(views_of(out@.push(line)) =~= views_of(out@).push(line@));
            }
        }
        if keep {
            out.push(line);
        }
        idx += 1;
    }
    proof {
        assert(views_of(ls@).take(ls@.len() as int) =~= views_of(ls@));
    }
    out
}

/// The lines of `contents` whose lowercase form contains the lowercase form
/// of `query`, in their original order; the returned lines themselves are the
/// original, unfolded lines of the corpus.
pub fn search_case_insensitive<'a>(query: &str, contents: &'a str) -> (r: Vec<&'a str>)
    ensures
        views_of(r@) == spec_search_insensitive(query@, contents@),
{
    let folded_query = lowercase(query);
    let ls = split_lines(contents);
    let mut out: Vec<&'a str> = Vec::new();
    let mut idx: usize = 0;
    proof {
        reveal(Seq::filter);
        assert(views_of(ls@).take(0) =~= Seq::<Seq<char>>::empty());
        assert(views_of(out@) =~= views_of(ls@).take(0).filter(insensitive_pred(query@)));
    }
    while idx < ls.len()
        invariant
            idx <= ls@.len(),
            views_of(ls@) == spec_lines(contents@),
            folded_query@ == lower_of(query@),
            views_of(out@) == views_of(ls@).take(idx as int).filter(insensitive_pred(query@)),
        decreases ls@.len() - idx,
    {
        let line = ls[idx];
        let folded_line = lowercase(line);
        let keep = contains_substring(folded_line.as_str(), folded_query.as_str());
        proof {
            let prev = views_of(ls@).take(idx as int);
            assert(views_of(ls@).take(idx + 1) =~= prev.push(line@));
            prev.lemma_filter_push(line@, insensitive_pred(query@));
            if keep {
                assert(views_of(out@.push(line)) =~= views_of(out@).push(line@));
            }
        }
        if keep {
            out.push(line);
        }
        idx += 1;
    }
    proof {
        assert(views_of(ls@).take(ls@.len() as int) =~= views_of(ls@));
    }
    out
}

/// The search that a case-sensitivity choice selects: the case-sensitive
/// search when `case_sensitive` holds, the case-insensitive one otherwise.
pub fn search_with_case<'a>(query: &str, contents: &'a str, case_sensitive: bool) -> (r: Vec<
    &'a str,
>)
    ensures
        case_sensitive ==> views_of(r@) == spec_search(query@, contents@),
        !case_sensitive ==> views_of(r@) == spec_search_insensitive(query@, contents@),
{
    if case_sensitive {
        search(query, contents)
    } else {
        search_case_insensitive(query, contents)
    }
}

/// Every element of a sequence passing a predicate, filtering by it keeps the
/// sequence whole.
proof fn lemma_filter_all(s: Seq<Seq<char>>, p: spec_fn(Seq<char>) -> bool)
    requires
        forall|i: int| 0 <= i < s.len() ==> p(#[trigger] s[i]),
    ensures
        s.filter(p) == s,
    decreases s.len(),
{
    reveal(Seq::filter);
    if s.len() > 0 {
        lemma_filter_all(s.drop_last(), p);
        assert(s.drop_last().filter(p).push(s.last()) =~= s);
    }
}

/// Ordered sub-selection: over a sequence whose elements passing `p` also
/// pass `r`, selecting by `r` and then by `p` selects exactly what `p` alone
/// selects. So the selection by the stricter test is a sub-selection of the
/// selection by the weaker test, in the same order; applied to the two line
/// tests of a search, it makes the case-sensitive result an ordered
/// sub-selection of the case-insensitive one.
pub proof fn lemma_selection_refines(
    s: Seq<Seq<char>>,
    p: spec_fn(Seq<char>) -> bool,
    r: spec_fn(Seq<char>) -> bool,
)
    requires
        forall|i: int| 0 <= i < s.len() && p(#[trigger] s[i]) ==> r(s[i]),
    ensures
        s.filter(r).filter(p) == s.filter(p),
    decreases s.len(),
{
    reveal(Seq::filter);
    if s.len() > 0 {
        let t = s.drop_last();
        let x = s.last();
        assert forall|i: int| 0 <= i < t.len() && p(#[trigger] t[i]) implies r(t[i]) by {
            assert(t[i] == s[i]);
        }
        lemma_selection_refines(t, p, r);
        assert(p(x) ==> r(x));
        if r(x) {
            assert(s.filter(r) == t.filter(r).push(x));
            t.filter(r).lemma_filter_push(x, p);
        } else {
            assert(!p(x));
            assert(s.filter(r) == t.filter(r));
            assert(s.filter(p) == t.filter(p));
        }
    }
}

/// Soundness, completeness and order of the case-sensitive search: every
/// returned line contains the query; every line of the corpus that contains
/// the query is returned; and the result grows with the corpus prefix it came
/// from, so the returned lines stand in their original order.
pub proof fn lemma_search_sound_complete(q: Seq<char>, c: Seq<char>)
    ensures
        forall|i: int|
            0 <= i < spec_search(q, c).len() ==> spec_contains(
                #[trigger] spec_search(q, c)[i],
                q,
            ),
        forall|j: int|
            0 <= j < spec_lines(c).len() && spec_contains(#[trigger] spec_lines(c)[j], q)
                ==> spec_search(q, c).contains(spec_lines(c)[j]),
        forall|i: int|
            0 <= i <= spec_lines(c).len() ==> (#[trigger] spec_lines(c).take(i)).filter(
                sensitive_pred(q),
            ).is_prefix_of(spec_search(q, c)),
{
    let ls = spec_lines(c);
    let p = sensitive_pred(q);
    assert forall|i: int| 0 <= i < ls.filter(p).len() implies spec_contains(
        ls.filter(p)[i],
        q,
    ) by {
        ls.lemma_filter_pred(p, i);
    }
    assert forall|j: int|
        0 <= j < ls.len() && spec_contains(ls[j], q) implies ls.filter(p).contains(ls[j]) by {
        assert(p(ls[j]));
        ls.lemma_filter_contains(p, j);
    }
    assert forall|i: int| 0 <= i <= ls.len() implies ls.take(i).filter(p).is_prefix_of(
        ls.filter(p),
    ) by {
        assert(ls.take(i).is_prefix_of(ls));
        ls.take(i).lemma_filter_monotone(ls, p);
    }
}

/// When, line by line over the corpus, containing the query as-is implies
/// containing it after case-folding, the case-insensitive result narrowed to
/// the lines that contain the query as-is is exactly the case-sensitive
/// result: the latter is an ordered sub-selection of the former.
pub proof fn lemma_insensitive_superset(q: Seq<char>, c: Seq<char>)
    ensures
        (forall|i: int|
            0 <= i < spec_lines(c).len() && spec_contains(#[trigger] spec_lines(c)[i], q)
                ==> spec_contains(lower_of(spec_lines(c)[i]), lower_of(q))) ==> spec_search_insensitive(
            q,
            c,
        ).filter(sensitive_pred(q)) == spec_search(q, c),
{
    let ls = spec_lines(c);
    let p = sensitive_pred(q);
    let r = insensitive_pred(q);
    if forall|i: int|
        0 <= i < ls.len() && spec_contains(#[trigger] ls[i], q) ==> spec_contains(
            lower_of(ls[i]),
            lower_of(q),
        ) {
        assert forall|i: int| 0 <= i < ls.len() && p(#[trigger] ls[i]) implies r(ls[i]) by {
            assert(spec_contains(ls[i], q));
        }
        lemma_selection_refines(ls, p, r);
    }
}

/// Either search run twice on the same query and corpus yields identical
/// sequences of lines: each run's result is pinned by the search's contract
/// to the same sequence.
pub proof fn lemma_search_idempotent(
    q: Seq<char>,
    c: Seq<char>,
    case_sensitive: bool,
    r1: Seq<Seq<char>>,
    r2: Seq<Seq<char>>,
)
    requires
        r1 == (if case_sensitive {
            spec_search(q, c)
        } else {
            spec_search_insensitive(q, c)
        }),
        r2 == (if case_sensitive {
            spec_search(q, c)
        } else {
            spec_search_insensitive(q, c)
        }),
    ensures
        r1 == r2,
{
}

/// The empty query matches every line: searching for it returns every line of
/// the corpus, in order.
pub proof fn lemma_empty_query(c: Seq<char>)
    ensures
        spec_search(Seq::empty(), c) == spec_lines(c),
{
    let ls = spec_lines(c);
    let p = sensitive_pred(Seq::<char>::empty());
    assert forall|i: int| 0 <= i < ls.len() implies p(#[trigger] ls[i]) by {
        let l = ls[i];
        assert(l.subrange(0, 0) =~= Seq::<char>::empty());
        assert(contains_at(l, Seq::<char>::empty(), 0));
    }
    lemma_filter_all(ls, p);
}

/// Searching the empty corpus returns no lines, whatever the query and
/// whichever way case is handled.
pub proof fn lemma_empty_corpus(q: Seq<char>)
    ensures
        spec_search(q, Seq::empty()) == Seq::<Seq<char>>::empty(),
        spec_search_insensitive(q, Seq::empty()) == Seq::<Seq<char>>::empty(),
{
    reveal(Seq::filter);
}

} // verus!
