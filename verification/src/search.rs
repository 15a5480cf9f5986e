use vstd::prelude::*;

use crate::config::Config;
use crate::text::contains_folded;
use crate::text::contains_seq;
use crate::text::fold_seq;
use crate::text::lower;
use crate::text::spec_lines;
use crate::text::split_lines;

verus! {

/// The test a line must pass to be kept: the query occurs in it as a
/// contiguous subsequence, with both sides lowercased when `fold` is set.
pub open spec fn line_pred(query: Seq<char>, fold: bool) -> spec_fn(Seq<char>) -> bool {
    |line: Seq<char>| contains_seq(fold_seq(line, fold), fold_seq(query, fold))
}

/// The lines of `contents` in which `query` occurs, kept in their original
/// order: a stable filter of `spec_lines(contents)`.
pub open spec fn search_spec(query: Seq<char>, contents: Seq<char>) -> Seq<Seq<char>> {
    spec_lines(contents).filter(line_pred(query, false))
}

/// The lines of `contents` whose lowercase form contains the lowercase form
/// of `query`, kept in their original order.
pub open spec fn search_ci_spec(query: Seq<char>, contents: Seq<char>) -> Seq<Seq<char>> {
    spec_lines(contents).filter(line_pred(query, true))
}

proof fn lemma_filter_push<A>(s: Seq<A>, pred: spec_fn(A) -> bool, x: A)
    ensures
        s.push(x).filter(pred) == (if pred(x) {
            s.filter(pred).push(x)
        } else {
            s.filter(pred)
        }),
{
    reveal(Seq::filter);
    assert(s.push(x).drop_last() =~= s);
    assert(s.push(x).last() == x);
}

fn search_folded(query: &str, contents: &str, fold: bool) -> (r: Vec<String>)
    ensures
        r.deep_view() == spec_lines(contents@).filter(line_pred(query@, fold)),
{
    let lines = split_lines(contents);
    let ghost ls = lines.deep_view();
    let ghost pred = line_pred(query@, fold);
    let mut out: Vec<String> = Vec::new();
    let mut i: usize = 0;
    proof {
        reveal(Seq::filter);
        assert(ls.subrange(0, 0) =~= Seq::<Seq<char>>::empty());
        assert(out.deep_view() =~= Seq::<Seq<char>>::empty());
    }
    while i < lines.len()
        invariant
            i <= lines.len(),
            ls == lines.deep_view(),
            ls == spec_lines(contents@),
            pred == line_pred(query@, fold),
            out.deep_view() == ls.subrange(0, i as int).filter(pred),
        decreases lines.len() - i,
    {
        let line: &String = &lines[i];
        if contains_folded(line.as_str(), query, fold) {
            let ghost old_dv = out.deep_view();
            out.push(line.clone());
            proof {
                assert(out.deep_view() =~= old_dv.push(ls[i as int]));
            }
        }
        proof {
            assert(ls.subrange(0, i as int).push(ls[i as int]) =~= ls.subrange(0, i + 1));
            lemma_filter_push(ls.subrange(0, i as int), pred, ls[i as int]);
        }
        i += 1;
    }
    proof {
        assert(ls.subrange(0, ls.len() as int) =~= ls);
    }
    out
}

/// Returns the lines of `contents` that contain `query` as a contiguous
/// substring, compared exactly, in their original order.
pub fn search(query: &str, contents: &str) -> (r: Vec<String>)
    ensures
        r.deep_view() == search_spec(query@, contents@),
{
    search_folded(query, contents, false)
}

/// Returns the lines of `contents` whose lowercase form contains the
/// lowercase form of `query`, in their original order.
pub fn search_case_insensitive(query: &str, contents: &str) -> (r: Vec<String>)
    ensures
        r.deep_view() == search_ci_spec(query@, contents@),
{
    search_folded(query, contents, true)
}

proof fn lemma_filter_membership<A>(s: Seq<A>, pred: spec_fn(A) -> bool)
    ensures
        forall|x: A| #[trigger] s.filter(pred).contains(x) ==> s.contains(x) && pred(x),
    decreases s.len(),
{
    reveal(Seq::filter);
    if s.len() != 0 {
        lemma_filter_membership(s.drop_last(), pred);
        assert forall|x: A| #[trigger] s.filter(pred).contains(x) implies s.contains(x) && pred(
            x,
        ) by {
            if pred(s.last()) && x == s.last() {
                assert(s[s.len() - 1] == x);
            } else {
                assert(s.drop_last().filter(pred).contains(x));
                assert(s.drop_last().contains(x));
                let i = choose|i: int| 0 <= i < s.drop_last().len() && s.drop_last()[i] == x;
                assert(s[i] == x);
            }
        }
    }
}

proof fn lemma_filter_all_true<A>(s: Seq<A>, pred: spec_fn(A) -> bool)
    requires
        forall|i: int| 0 <= i < s.len() ==> pred(#[trigger] s[i]),
    ensures
        s.filter(pred) == s,
    decreases s.len(),
{
    reveal(Seq::filter);
    if s.len() == 0 {
        assert(s.filter(pred) =~= s);
    } else {
        assert(forall|i: int|
            0 <= i < s.drop_last().len() ==> pred(#[trigger] s.drop_last()[i]));
        lemma_filter_all_true(s.drop_last(), pred);
        assert(pred(s[s.len() - 1]));
        assert(s.drop_last().push(s.last()) =~= s);
    }
}

/// Both variants return a stable filter of the lines of `contents`: every
/// line they keep is one of the lines of `contents` and satisfies the match
/// predicate, and no more lines are kept than exist.
pub proof fn lemma_search_within_lines(query: Seq<char>, contents: Seq<char>)
    ensures
        forall|x: Seq<char>| #[trigger]
            search_spec(query, contents).contains(x) ==> spec_lines(contents).contains(x)
                && contains_seq(x, query),
        forall|x: Seq<char>| #[trigger]
            search_ci_spec(query, contents).contains(x) ==> spec_lines(contents).contains(x)
                && contains_seq(lower(x), lower(query)),
        search_spec(query, contents).len() <= spec_lines(contents).len(),
        search_ci_spec(query, contents).len() <= spec_lines(contents).len(),
{
    lemma_filter_membership(spec_lines(contents), line_pred(query, false));
    lemma_filter_membership(spec_lines(contents), line_pred(query, true));
    spec_lines(contents).lemma_filter_len(line_pred(query, false));
    spec_lines(contents).lemma_filter_len(line_pred(query, true));
}

/// Both search variants are pure: any two results that meet the contract of
/// `search`, or of `search_case_insensitive`, on the same inputs are equal,
/// so running a search twice yields identical results.
pub proof fn lemma_search_deterministic(
    query: Seq<char>,
    contents: Seq<char>,
    r1: Seq<Seq<char>>,
    r2: Seq<Seq<char>>,
)
    requires
        r1 == search_spec(query, contents) && r2 == search_spec(query, contents) || r1
            == search_ci_spec(query, contents) && r2 == search_ci_spec(query, contents),
    ensures
        r1 == r2,
{
}

/// Empty `contents` yield an empty result, for both variants.
pub proof fn lemma_empty_contents(query: Seq<char>)
    ensures
        search_spec(query, Seq::<char>::empty()) == Seq::<Seq<char>>::empty(),
        search_ci_spec(query, Seq::<char>::empty()) == Seq::<Seq<char>>::empty(),
{
    reveal(Seq::filter);
}

/// An empty `query` occurs in every line, so both variants keep every line
/// of `contents`.
pub proof fn lemma_empty_query(contents: Seq<char>)
    ensures
        search_spec(Seq::<char>::empty(), contents) == spec_lines(contents),
        search_ci_spec(Seq::<char>::empty(), contents) == spec_lines(contents),
{
    let q = Seq::<char>::empty();
    assert(lower(q) =~= q);
    assert forall|line: Seq<char>, fold: bool| #[trigger] line_pred(q, fold)(line) by {
        assert(fold_seq(line, fold).subrange(0, 0 + fold_seq(q, fold).len() as int) =~= fold_seq(
            q,
            fold,
        ));
    }
    lemma_filter_all_true(spec_lines(contents), line_pred(q, false));
    lemma_filter_all_true(spec_lines(contents), line_pred(q, true));
}

/// Dispatches to the search variant that `config.case_sensitive` selects and
/// returns the matching lines of `contents`, in their original order.
pub fn run_search(config: &Config, contents: &str) -> (r: Vec<String>)
    ensures
        config.case_sensitive ==> r.deep_view() == search_spec(config.query@, contents@),
        !config.case_sensitive ==> r.deep_view() == search_ci_spec(config.query@, contents@),
{
    if config.case_sensitive {
        search(config.query.as_str(), contents)
    } else {
        search_case_insensitive(config.query.as_str(), contents)
    }
}

} // verus!
