//! The laws the library states of its searches, and the sequence facts they
//! rest on.

use vstd::prelude::*;
use crate::search::line_matches;
use crate::search::line_matches_lowered;
use crate::search::lower_of;
use crate::search::spec_search;
use crate::search::spec_search_case_insensitive;
use crate::text::contains_seq;
use crate::text::lemma_contains_empty;
use crate::text::lines_of;

verus! {

/// True when `sub` can be had from `full` by deleting elements while keeping
/// the order of those that stay.
pub open spec fn is_subsequence_of<A>(sub: Seq<A>, full: Seq<A>) -> bool
    decreases sub.len() + full.len(),
{
    if sub.len() == 0 {
        true
    } else if full.len() == 0 {
        false
    } else if sub.last() == full.last() {
        is_subsequence_of(sub.drop_last(), full.drop_last())
    } else {
        is_subsequence_of(sub, full.drop_last())
    }
}

/// A subsequence of a sequence shorn of its last element is a subsequence of
/// the whole sequence.
pub(crate) proof fn lemma_subsequence_grow<A>(sub: Seq<A>, full: Seq<A>)
    requires
        full.len() > 0,
        is_subsequence_of(sub, full.drop_last()),
    ensures
        is_subsequence_of(sub, full),
    decreases sub.len() + full.len(),
{
    if sub.len() > 0 && sub.last() == full.last() {
        lemma_subsequence_shrink(sub, full.drop_last());
    }
}

/// Dropping the last element of a subsequence leaves a subsequence.
pub(crate) proof fn lemma_subsequence_shrink<A>(sub: Seq<A>, full: Seq<A>)
    requires
        sub.len() > 0,
        is_subsequence_of(sub, full),
    ensures
        is_subsequence_of(sub.drop_last(), full),
    decreases sub.len() + full.len(),
{
    if sub.last() == full.last() {
        lemma_subsequence_grow(sub.drop_last(), full);
    } else {
        lemma_subsequence_shrink(sub, full.drop_last());
        lemma_subsequence_grow(sub.drop_last(), full);
    }
}

/// What a filter keeps, it keeps in order: the filtered sequence is a
/// subsequence of the original.
pub(crate) proof fn lemma_filter_subsequence<A>(s: Seq<A>, pred: spec_fn(A) -> bool)
    ensures
        is_subsequence_of(s.filter(pred), s),
    decreases s.len(),
{
    reveal(Seq::filter);
    if s.len() > 0 {
        lemma_filter_subsequence(s.drop_last(), pred);
        let sub = s.drop_last().filter(pred);
        if pred(s.last()) {
            assert(s.filter(pred) == sub.push(s.last()));
            assert(sub.push(s.last()).last() == s.last());
            assert(sub.push(s.last()).drop_last() =~= sub);
        } else {
            lemma_subsequence_grow(sub, s);
        }
    }
}

/// A filter whose predicate holds of every element returns the sequence whole.
pub(crate) proof fn lemma_filter_all<A>(s: Seq<A>, pred: spec_fn(A) -> bool)
    requires
        forall|i: int| 0 <= i < s.len() ==> pred(#[trigger] s[i]),
    ensures
        s.filter(pred) == s,
    decreases s.len(),
{
    reveal(Seq::filter);
    if s.len() > 0 {
        assert forall|i: int| 0 <= i < s.drop_last().len() implies pred(
            #[trigger] s.drop_last()[i],
        ) by {
            assert(s.drop_last()[i] == s[i]);
        }
        lemma_filter_all(s.drop_last(), pred);
        assert(pred(s.last()));
        assert(s.drop_last().push(s.last()) =~= s);
    }
}

/// Law: every line the exact search returns contains the query as an exact
/// substring, and is a line of the text.
pub proof fn lemma_search_sound(query: Seq<char>, text: Seq<char>)
    ensures
        forall|i: int|
            0 <= i < spec_search(query, text).len() ==> contains_seq(
                #[trigger] spec_search(query, text)[i],
                query,
            ) && lines_of(text).contains(spec_search(query, text)[i]),
{
    let result = spec_search(query, text);
    let lines = lines_of(text);
    assert forall|i: int| 0 <= i < result.len() implies contains_seq(
        #[trigger] result[i],
        query,
    ) && lines.contains(result[i]) by {
        lines.lemma_filter_pred(line_matches(query), i);
        assert(result.contains(result[i]));
        lines.lemma_filter_contains_rev(line_matches(query), result[i]);
    }
}

/// Law: every line of the text that contains the query as an exact substring
/// appears in the exact search's result.
pub proof fn lemma_search_complete(query: Seq<char>, text: Seq<char>)
    ensures
        forall|i: int|
            0 <= i < lines_of(text).len() && contains_seq(#[trigger] lines_of(text)[i], query)
                ==> spec_search(query, text).contains(lines_of(text)[i]),
{
    let lines = lines_of(text);
    assert forall|i: int|
        0 <= i < lines.len() && contains_seq(#[trigger] lines[i], query) implies spec_search(
        query,
        text,
    ).contains(lines[i]) by {
        lines.lemma_filter_contains(line_matches(query), i);
    }
}

/// Law: the exact search keeps the text's line order: its result is a
/// subsequence of the text's lines.
pub proof fn lemma_search_ordered(query: Seq<char>, text: Seq<char>)
    ensures
        is_subsequence_of(spec_search(query, text), lines_of(text)),
{
    lemma_filter_subsequence(lines_of(text), line_matches(query));
}

/// Law: every line the case-insensitive search returns has a lowercase form
/// that contains the query's lowercase form, and is itself an original
/// (non-lowercased) line of the text.
pub proof fn lemma_search_case_insensitive_sound(query: Seq<char>, text: Seq<char>)
    ensures
        forall|i: int|
            0 <= i < spec_search_case_insensitive(query, text).len() ==> contains_seq(
                lower_of(#[trigger] spec_search_case_insensitive(query, text)[i]),
                lower_of(query),
            ) && lines_of(text).contains(spec_search_case_insensitive(query, text)[i]),
{
    let result = spec_search_case_insensitive(query, text);
    let lines = lines_of(text);
    assert forall|i: int| 0 <= i < result.len() implies contains_seq(
        lower_of(#[trigger] result[i]),
        lower_of(query),
    ) && lines.contains(result[i]) by {
        lines.lemma_filter_pred(line_matches_lowered(query), i);
        assert(result.contains(result[i]));
        lines.lemma_filter_contains_rev(line_matches_lowered(query), result[i]);
    }
}

/// Law: every line of the text whose lowercase form contains the query's
/// lowercase form appears in the case-insensitive search's result.
pub proof fn lemma_search_case_insensitive_complete(query: Seq<char>, text: Seq<char>)
    ensures
        forall|i: int|
            0 <= i < lines_of(text).len() && contains_seq(
                lower_of(#[trigger] lines_of(text)[i]),
                lower_of(query),
            ) ==> spec_search_case_insensitive(query, text).contains(lines_of(text)[i]),
{
    let lines = lines_of(text);
    assert forall|i: int|
        0 <= i < lines.len() && contains_seq(
            lower_of(#[trigger] lines[i]),
            lower_of(query),
        ) implies spec_search_case_insensitive(query, text).contains(lines[i]) by {
        lines.lemma_filter_contains(line_matches_lowered(query), i);
    }
}

/// Law: the case-insensitive search keeps the text's line order: its result is
/// a subsequence of the text's lines.
pub proof fn lemma_search_case_insensitive_ordered(query: Seq<char>, text: Seq<char>)
    ensures
        is_subsequence_of(spec_search_case_insensitive(query, text), lines_of(text)),
{
    lemma_filter_subsequence(lines_of(text), line_matches_lowered(query));
}

/// Law: an empty query matches every line: the exact search returns every line
/// of the text.
pub proof fn lemma_empty_query_search(query: Seq<char>, text: Seq<char>)
    requires
        query.len() == 0,
    ensures
        spec_search(query, text) == lines_of(text),
{
    let lines = lines_of(text);
    assert forall|i: int| 0 <= i < lines.len() implies line_matches(query)(
        #[trigger] lines[i],
    ) by {
        assert(query =~= Seq::<char>::empty());
        lemma_contains_empty(lines[i]);
    }
    lemma_filter_all(lines, line_matches(query));
}

/// Law: a query whose lowercase form is empty matches every line: the
/// case-insensitive search returns every line of the text. An empty query has
/// an empty lowercase form (`str::to_lowercase` keeps the empty string empty),
/// so this is the empty-query law for the case-insensitive search.
pub proof fn lemma_empty_query_search_case_insensitive(query: Seq<char>, text: Seq<char>)
    requires
        lower_of(query).len() == 0,
    ensures
        spec_search_case_insensitive(query, text) == lines_of(text),
{
    let lines = lines_of(text);
    assert forall|i: int| 0 <= i < lines.len() implies line_matches_lowered(query)(
        #[trigger] lines[i],
    ) by {
        assert(lower_of(query) =~= Seq::<char>::empty());
        lemma_contains_empty(lower_of(lines[i]));
    }
    lemma_filter_all(lines, line_matches_lowered(query));
}

} // verus!
