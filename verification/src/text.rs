//! The model of a text: substring containment and splitting into lines.

use vstd::prelude::*;
use vstd::string::StrSliceExecFns;

verus! {

/// True when `needle` stands in `hay` as the contiguous run beginning at index `i`.
pub open spec fn matches_at(hay: Seq<char>, needle: Seq<char>, i: int) -> bool {
    0 <= i && i + needle.len() <= hay.len() && hay.subrange(i, i + needle.len()) == needle
}

/// True when `needle` stands somewhere in `hay` as a contiguous run of
/// characters; the empty sequence stands in every `hay`.
pub open spec fn contains_seq(hay: Seq<char>, needle: Seq<char>) -> bool {
    exists|i: int| matches_at(hay, needle, i)
}

/// The empty sequence stands in every sequence, at index 0.
pub proof fn lemma_contains_empty(hay: Seq<char>)
    ensures
        contains_seq(hay, Seq::<char>::empty()),
{
    assert(hay.subrange(0, 0) =~= Seq::<char>::empty());
    assert(matches_at(hay, Seq::<char>::empty(), 0));
}

/// Reports whether `needle` stands in `hay` beginning at character index `i`.
fn matches_here(hay: &str, needle: &str, i: usize) -> (r: bool)
    requires
        hay@.len() <= usize::MAX,
        i + needle@.len() <= hay@.len(),
    ensures
        r == matches_at(hay@, needle@, i as int),
{
    let needle_len = needle.unicode_len();
    let mut j: usize = 0;
    while j < needle_len
        invariant
            needle_len == needle@.len(),
            hay@.len() <= usize::MAX,
            i + needle_len <= hay@.len(),
            j <= needle_len,
            forall|k: int| 0 <= k < j ==> hay@[i + k] == needle@[k],
        decreases needle_len - j,
    {
        if hay.get_char(i + j) != needle.get_char(j) {
            assert(!matches_at(hay@, needle@, i as int)) by {
                if matches_at(hay@, needle@, i as int) {
                    assert(hay@.subrange(i as int, i + needle@.len())[j as int] == hay@[i + j]);
                }
            }
            return false;
        }
        j = j + 1;
    }
    assert(hay@.subrange(i as int, i + needle@.len()) =~= needle@);
    true
}

/// Reports whether `needle` stands in `hay` as a contiguous run of characters;
/// an empty `needle` stands in every `hay`.
pub fn contains_substr(hay: &str, needle: &str) -> (r: bool)
    ensures
        r == contains_seq(hay@, needle@),
{
    let hay_len = hay.unicode_len();
    let needle_len = needle.unicode_len();
    if needle_len > hay_len {
        assert(!contains_seq(hay@, needle@)) by {
            assert(forall|k: int| matches_at(hay@, needle@, k) ==> k + needle@.len() <= hay@.len());
        }
        return false;
    }
    let last_start = hay_len - needle_len;
    let mut i: usize = 0;
    loop
        invariant
            hay_len == hay@.len(),
            needle_len == needle@.len(),
            needle_len <= hay_len,
            last_start == hay_len - needle_len,
            i <= last_start,
            forall|k: int| 0 <= k < i ==> !matches_at(hay@, needle@, k),
        decreases last_start - i,
    {
        if matches_here(hay, needle, i) {
            assert(contains_seq(hay@, needle@));
            return true;
        }
        if i == last_start {
            assert(!contains_seq(hay@, needle@)) by {
                assert forall|k: int| !matches_at(hay@, needle@, k) by {
                    if 0 <= k < i as int {
                    } else if k == i as int {
                    } else {
                        assert(matches_at(hay@, needle@, k) ==> 0 <= k && k + needle@.len()
                            <= hay@.len());
                    }
                }
            }
            return false;
        }
        i = i + 1;
    }
}

/// A line read up to a line feed loses one carriage return standing at its end.
pub open spec fn strip_cr(line: Seq<char>) -> Seq<char> {
    if line.len() > 0 && line.last() == '\r' {
        line.drop_last()
    } else {
        line
    }
}

/// The lines of `rest` when the characters of `cur` have already been read as
/// the beginning of the current line: each line feed ends a line, a carriage
/// return standing just before a line feed is dropped with it, and a last line
/// that no line feed ends is kept whole -- an empty last line is no line.
pub open spec fn lines_from(rest: Seq<char>, cur: Seq<char>) -> Seq<Seq<char>>
    decreases rest.len(),
{
    if rest.len() == 0 {
        if cur.len() == 0 {
            Seq::<Seq<char>>::empty()
        } else {
            seq![cur]
        }
    } else if rest.first() == '\n' {
        seq![strip_cr(cur)] + lines_from(rest.drop_first(), Seq::<char>::empty())
    } else {
        lines_from(rest.drop_first(), cur.push(rest.first()))
    }
}

/// The lines of a text: maximal runs between line-break boundaries, in the
/// order they stand in the text. A "\r\n" pair ends its line before the '\r',
/// the final line needs no trailing line feed, and a trailing line feed adds
/// no empty final line.
pub open spec fn lines_of(text: Seq<char>) -> Seq<Seq<char>> {
    lines_from(text, Seq::<char>::empty())
}

/// Splits a text into its lines, each a borrowed view into the text, in the
/// text's own order.
pub fn split_lines<'a>(text: &'a str) -> (r: Vec<&'a str>)
    ensures
        r.deep_view() == lines_of(text@),
{
    let len = text.unicode_len();
    let mut result: Vec<&'a str> = Vec::new();
    let mut start: usize = 0;
    let mut i: usize = 0;
    proof {
        assert(text@.skip(0) =~= text@);
        assert(text@.subrange(0, 0) =~= Seq::<char>::empty());
        assert(result.deep_view() =~= Seq::<Seq<char>>::empty());
        assert(Seq::<Seq<char>>::empty() + lines_of(text@) =~= lines_of(text@));
    }
    while i < len
        invariant
            len == text@.len(),
            start <= i <= len,
            result.deep_view() + lines_from(
                text@.skip(i as int),
                text@.subrange(start as int, i as int),
            ) == lines_of(text@),
        decreases len - i,
    {
        let ghost prev = result.deep_view();
        let ghost cur = text@.subrange(start as int, i as int);
        let c = text.get_char(i);
        proof {
            assert(text@.skip(i as int).first() == text@[i as int]);
            assert(text@.skip(i as int).drop_first() =~= text@.skip(i as int + 1));
        }
        if c == '\n' {
            let line: &'a str = if i > start && text.get_char(i - 1) == '\r' {
                text.substring_char(start, i - 1)
            } else {
                text.substring_char(start, i)
            };
            proof {
                if i > start && text@[i as int - 1] == '\r' {
                    assert(cur.last() == text@[i as int - 1]);
                    assert(cur.drop_last() =~= text@.subrange(start as int, i as int - 1));
                }
                assert(line@ == strip_cr(cur));
            }
            result.push(line);
            proof {
                assert(result.deep_view() =~= prev.push(line@));
                assert(lines_from(text@.skip(i as int), cur) == seq![strip_cr(cur)] + lines_from(
                    text@.skip(i as int + 1),
                    Seq::<char>::empty(),
                ));
                assert(text@.subrange(i as int + 1, i as int + 1) =~= Seq::<char>::empty());
                assert(prev.push(line@) + lines_from(text@.skip(i as int + 1), Seq::<char>::empty())
                    =~= prev + (seq![strip_cr(cur)] + lines_from(
                    text@.skip(i as int + 1),
                    Seq::<char>::empty(),
                )));
            }
            start = i + 1;
            i = i + 1;
        } else {
            proof {
                assert(cur.push(text@[i as int]) =~= text@.subrange(start as int, i as int + 1));
                assert(lines_from(text@.skip(i as int), cur) == lines_from(
                    text@.skip(i as int + 1),
                    cur.push(text@[i as int]),
                ));
            }
            i = i + 1;
        }
    }
    proof {
        assert(text@.skip(len as int) =~= Seq::<char>::empty());
    }
    if start < len {
        let ghost prev = result.deep_view();
        let ghost cur = text@.subrange(start as int, len as int);
        let line = text.substring_char(start, len);
        result.push(line);
        proof {
            assert(result.deep_view() =~= prev.push(line@));
            assert(lines_from(Seq::<char>::empty(), cur) == seq![cur]);
            assert(prev.push(line@) =~= prev + seq![cur]);
        }
    } else {
        proof {
            assert(text@.subrange(start as int, len as int).len() == 0);
            assert(result.deep_view() + Seq::<Seq<char>>::empty() =~= result.deep_view());
        }
    }
    result
}

} // verus!
