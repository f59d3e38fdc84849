//! The guarantees the searches give, stated and proved once and for all.

use vstd::prelude::*;

use crate::matcher::contains_seq;
use crate::matcher::is_match_at;
use crate::matcher::lines_spec;
use crate::matcher::lower_of;
use crate::matcher::matches_query;
use crate::matcher::matches_query_fold;
use crate::matcher::search_fold_spec;
use crate::matcher::search_spec;

verus! {

/// Filtering selects its results from the source in order: there is a
/// strictly increasing sequence of source positions the results are drawn
/// from.
proof fn lemma_filter_positions(s: Seq<Seq<char>>, pred: spec_fn(Seq<char>) -> bool) -> (positions:
    Seq<int>)
    ensures
        positions.len() == s.filter(pred).len(),
        forall|i: int|
            0 <= i < positions.len() ==> 0 <= #[trigger] positions[i] < s.len() && s[positions[i]]
                == s.filter(pred)[i],
        forall|i: int, j: int| 0 <= i < j < positions.len() ==> positions[i] < positions[j],
    decreases s.len(),
{
    reveal(Seq::filter);
    if s.len() == 0 {
        Seq::empty()
    } else {
        let sub = lemma_filter_positions(s.drop_last(), pred);
        if pred(s.last()) {
            sub.push(s.len() - 1)
        } else {
            sub
        }
    }
}

/// If every element of the sequence passing the first test passes the
/// second, the second test lets at least as many elements through.
proof fn lemma_filter_monotone(
    s: Seq<Seq<char>>,
    p1: spec_fn(Seq<char>) -> bool,
    p2: spec_fn(Seq<char>) -> bool,
)
    requires
        forall|i: int| 0 <= i < s.len() && p1(#[trigger] s[i]) ==> p2(s[i]),
    ensures
        s.filter(p1).len() <= s.filter(p2).len(),
    decreases s.len(),
{
    reveal(Seq::filter);
    if s.len() > 0 {
        assert forall|i: int|
            0 <= i < s.drop_last().len() && p1(#[trigger] s.drop_last()[i]) implies p2(
            s.drop_last()[i],
        ) by {
            assert(s.drop_last()[i] == s[i]);
        }
        lemma_filter_monotone(s.drop_last(), p1, p2);
    }
}

/// Filtering by a test every element passes returns the sequence unchanged.
proof fn lemma_filter_all(s: Seq<Seq<char>>, pred: spec_fn(Seq<char>) -> bool)
    requires
        forall|i: int| 0 <= i < s.len() ==> pred(#[trigger] s[i]),
    ensures
        s.filter(pred) == s,
    decreases s.len(),
{
    reveal(Seq::filter);
    if s.len() > 0 {
        lemma_filter_all(s.drop_last(), pred);
        assert(s.filter(pred) =~= s);
    }
}

/// Every line a case-sensitive search reports is a line of the content and
/// contains the query, and the report keeps the content's order: the
/// returned sequence of positions says, for each reported line, which line
/// of the content it is, and the positions increase strictly.
pub proof fn lemma_search_from_lines(query: Seq<char>, content: Seq<char>) -> (positions: Seq<int>)
    ensures
        positions.len() == search_spec(query, content).len(),
        forall|i: int|
            0 <= i < positions.len() ==> 0 <= #[trigger] positions[i] < lines_spec(content).len()
                && lines_spec(content)[positions[i]] == search_spec(query, content)[i],
        forall|i: int|
            0 <= i < positions.len() ==> contains_seq(
                #[trigger] search_spec(query, content)[i],
                query,
            ),
        forall|i: int, j: int| 0 <= i < j < positions.len() ==> positions[i] < positions[j],
{
    broadcast use Seq::lemma_filter_pred;

    lemma_filter_positions(lines_spec(content), matches_query(query))
}

/// Every line a case-insensitive search reports is a line of the content
/// whose case-folded text contains the case-folded query, and the report
/// keeps the content's order, as for the case-sensitive search.
pub proof fn lemma_search_fold_from_lines(query: Seq<char>, content: Seq<char>) -> (positions: Seq<
    int,
>)
    ensures
        positions.len() == search_fold_spec(query, content).len(),
        forall|i: int|
            0 <= i < positions.len() ==> 0 <= #[trigger] positions[i] < lines_spec(content).len()
                && lines_spec(content)[positions[i]] == search_fold_spec(query, content)[i],
        forall|i: int|
            0 <= i < positions.len() ==> contains_seq(
                lower_of(#[trigger] search_fold_spec(query, content)[i]),
                lower_of(query),
            ),
        forall|i: int, j: int| 0 <= i < j < positions.len() ==> positions[i] < positions[j],
{
    broadcast use Seq::lemma_filter_pred;

    lemma_filter_positions(lines_spec(content), matches_query_fold(query))
}

/// Where every case-sensitive match survives the lowercase conversion of
/// its line and the query, the case-insensitive search reports at least as
/// many lines as the case-sensitive one. The premise cannot be dropped: the
/// standard conversion maps some characters by their context (Greek capital
/// sigma takes its final form at the end of a word), so a match can be lost
/// by folding; for text without such characters the premise holds.
pub proof fn lemma_case_insensitive_superset(query: Seq<char>, content: Seq<char>)
    requires
        forall|i: int|
            0 <= i < lines_spec(content).len() && contains_seq(
                #[trigger] lines_spec(content)[i],
                query,
            ) ==> contains_seq(lower_of(lines_spec(content)[i]), lower_of(query)),
    ensures
        search_spec(query, content).len() <= search_fold_spec(query, content).len(),
{
    let lines = lines_spec(content);
    let p1 = matches_query(query);
    let p2 = matches_query_fold(query);
    assert forall|i: int| 0 <= i < lines.len() && p1(#[trigger] lines[i]) implies p2(lines[i]) by {
        assert(contains_seq(lines[i], query));
    }
    lemma_filter_monotone(lines, p1, p2);
}

/// Searching is a function of the query and the content alone: the contract
/// of [`crate::search`] pins its result to `search_spec`, so any two calls
/// on identical arguments return results with identical lines.
pub proof fn lemma_search_deterministic(
    query: Seq<char>,
    content: Seq<char>,
    r1: Seq<Seq<char>>,
    r2: Seq<Seq<char>>,
)
    requires
        r1 == search_spec(query, content),
        r2 == search_spec(query, content),
    ensures
        r1 == r2,
{
}

/// An empty query matches every line: the search returns the content's
/// lines unchanged, in their original order.
pub proof fn lemma_empty_query_matches_all(content: Seq<char>)
    ensures
        search_spec(Seq::empty(), content) == lines_spec(content),
{
    let lines = lines_spec(content);
    assert forall|i: int| 0 <= i < lines.len() implies matches_query(Seq::empty())(
        #[trigger] lines[i],
    ) by {
        assert(is_match_at(lines[i], Seq::empty(), 0)) by {
            assert(lines[i].subrange(0, 0) =~= Seq::<char>::empty());
        }
    }
    lemma_filter_all(lines, matches_query(Seq::empty()));
}

} // verus!
