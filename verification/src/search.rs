//! The two line filters: exact and case-insensitive substring search.

use vstd::prelude::*;
use crate::config::Config;
use crate::laws::lemma_filter_all;
use crate::text::contains_seq;
use crate::text::contains_substr;
use crate::text::lemma_contains_empty;
use crate::text::lines_of;
use crate::text::split_lines;

verus! {

/// The lowercase form of a character sequence, as Rust's `str::to_lowercase`
/// computes it.
pub uninterp spec fn lower_of(s: Seq<char>) -> Seq<char>;

/// Relies on `str::to_lowercase`: its result depends on the characters of its
/// argument alone, and the lowercase form of the empty string is empty.
#[verifier::external_body]
fn to_lower(s: &str) -> (r: String)
    ensures
        r@ == lower_of(s@),
        s@.len() == 0 ==> r@.len() == 0,
{
    s.to_lowercase()
}

/// Holds of a line that contains the query unchanged.
pub open spec fn line_matches(query: Seq<char>) -> spec_fn(Seq<char>) -> bool {
    |line: Seq<char>| contains_seq(line, query)
}

/// Holds of a line whose lowercase form contains the query's lowercase form.
pub open spec fn line_matches_lowered(query: Seq<char>) -> spec_fn(Seq<char>) -> bool {
    |line: Seq<char>| contains_seq(lower_of(line), lower_of(query))
}

/// The lines of `text` that contain `query` unchanged, in their original order.
pub open spec fn spec_search(query: Seq<char>, text: Seq<char>) -> Seq<Seq<char>> {
    lines_of(text).filter(line_matches(query))
}

/// The lines of `text` whose lowercase form contains the lowercase form of
/// `query`, themselves unchanged and in their original order.
pub open spec fn spec_search_case_insensitive(query: Seq<char>, text: Seq<char>) -> Seq<
    Seq<char>,
> {
    lines_of(text).filter(line_matches_lowered(query))
}

/// Returns every line of `text` that contains `query` as an exact,
/// case-sensitive substring, in the order the lines stand in `text`; an empty
/// query matches every line.
pub fn search<'a>(query: &str, text: &'a str) -> (r: Vec<&'a str>)
    ensures
        r.deep_view() == spec_search(query@, text@),
        query@.len() == 0 ==> r.deep_view() == lines_of(text@),
{
    let lines = split_lines(text);
    let mut results: Vec<&'a str> = Vec::new();
    let n = lines.len();
    let mut k: usize = 0;
    proof {
        reveal(Seq::filter);
        assert(lines.deep_view().subrange(0, 0) =~= Seq::<Seq<char>>::empty());
        assert(results.deep_view() =~= Seq::<Seq<char>>::empty());
    }
    while k < n
        invariant
            n == lines.len(),
            k <= n,
            lines.deep_view() == lines_of(text@),
            results.deep_view() == lines.deep_view().subrange(0, k as int).filter(
                line_matches(query@),
            ),
        decreases n - k,
    {
        let ghost prev = results.deep_view();
        let ghost prefix = lines.deep_view().subrange(0, k as int);
        let line = lines[k];
        let matched = contains_substr(line, query);
        if matched {
            results.push(line);
            proof {
                assert(results.deep_view() =~= prev.push(line@));
            }
        }
        proof {
            reveal(Seq::filter);
            let prefix2 = lines.deep_view().subrange(0, k as int + 1);
            assert(prefix2.drop_last() =~= prefix);
            assert(prefix2.last() == line@);
            assert(line_matches(query@)(line@) == matched);
        }
        k = k + 1;
    }
    proof {
        assert(lines.deep_view().subrange(0, n as int) =~= lines.deep_view());
        if query@.len() == 0 {
            assert forall|j: int| 0 <= j < lines_of(text@).len() implies line_matches(query@)(
                #[trigger] lines_of(text@)[j],
            ) by {
                assert(query@ =~= Seq::<char>::empty());
                lemma_contains_empty(lines_of(text@)[j]);
            }
            lemma_filter_all(lines_of(text@), line_matches(query@));
        }
    }
    results
}

/// Returns every line of `text` whose lowercase form contains the lowercase
/// form of `query` as a substring; the lines come back as they stand in `text`
/// (not lowercased) and in the text's order, and an empty query matches every
/// line.
pub fn search_case_insensitive<'a>(query: &str, text: &'a str) -> (r: Vec<&'a str>)
    ensures
        r.deep_view() == spec_search_case_insensitive(query@, text@),
        query@.len() == 0 ==> r.deep_view() == lines_of(text@),
{
    let query_lower = to_lower(query);
    let lines = split_lines(text);
    let mut results: Vec<&'a str> = Vec::new();
    let n = lines.len();
    let mut k: usize = 0;
    proof {
        reveal(Seq::filter);
        assert(lines.deep_view().subrange(0, 0) =~= Seq::<Seq<char>>::empty());
        assert(results.deep_view() =~= Seq::<Seq<char>>::empty());
    }
    while k < n
        invariant
            n == lines.len(),
            k <= n,
            query_lower@ == lower_of(query@),
            query@.len() == 0 ==> query_lower@.len() == 0,
            lines.deep_view() == lines_of(text@),
            results.deep_view() == lines.deep_view().subrange(0, k as int).filter(
                line_matches_lowered(query@),
            ),
        decreases n - k,
    {
        let ghost prev = results.deep_view();
        let ghost prefix = lines.deep_view().subrange(0, k as int);
        let line = lines[k];
        let line_lower = to_lower(line);
        let matched = contains_substr(line_lower.as_str(), query_lower.as_str());
        if matched {
            results.push(line);
            proof {
                assert(results.deep_view() =~= prev.push(line@));
            }
        }
        proof {
            reveal(Seq::filter);
            let prefix2 = lines.deep_view().subrange(0, k as int + 1);
            assert(prefix2.drop_last() =~= prefix);
            assert(prefix2.last() == line@);
            assert(line_matches_lowered(query@)(line@) == matched);
        }
        k = k + 1;
    }
    proof {
        assert(lines.deep_view().subrange(0, n as int) =~= lines.deep_view());
        if query@.len() == 0 {
            assert forall|j: int| 0 <= j < lines_of(text@).len() implies line_matches_lowered(
                query@,
            )(#[trigger] lines_of(text@)[j]) by {
                assert(lower_of(query@) =~= Seq::<char>::empty());
                lemma_contains_empty(lower_of(lines_of(text@)[j]));
            }
            lemma_filter_all(lines_of(text@), line_matches_lowered(query@));
        }
    }
    results
}

/// Selects the search the configuration asks for and returns its matching
/// lines: the exact search when the configuration is case-sensitive, the
/// case-insensitive one otherwise.
pub fn run<'a>(config: &Config, contents: &'a str) -> (r: Vec<&'a str>)
    ensures
        config.case_sensitive ==> r.deep_view() == spec_search(config.query@, contents@),
        !config.case_sensitive ==> r.deep_view() == spec_search_case_insensitive(
            config.query@,
            contents@,
        ),
{
    if config.case_sensitive {
        search(config.query.as_str(), contents)
    } else {
        search_case_insensitive(config.query.as_str(), contents)
    }
}

} // verus!
