//! The two searches: which lines of a text hold the query.

use crate::text::{chars_of, contains, contains_chars, lines_of, split_lines, views};
use vstd::prelude::*;

verus! {

/// The lower-case form of a text, as the standard library's Unicode tables
/// give it.
pub uninterp spec fn lowercase_of(s: Seq<char>) -> Seq<char>;

/// Calls `str::to_lowercase`. Believed, not proved: the result is the
/// lower-case form of the argument, a function of its characters alone.
#[verifier::external_body]
pub(crate) fn lowercase(s: &str) -> (lower: String)
    ensures
        lower@ == lowercase_of(s@),
{
    s.to_lowercase()
}

/// The lines of `text` that hold `query` as it is written, in the order of the
/// text. A line that holds it several times is listed once.
pub open spec fn matching_lines(query: Seq<char>, text: Seq<char>) -> Seq<Seq<char>> {
    lines_of(text).filter(|line: Seq<char>| contains(line, query))
}

/// The lines of `text` whose lower-case form holds the lower-case form of
/// `query`, in the order of the text.
pub open spec fn matching_lines_ignoring_case(query: Seq<char>, text: Seq<char>) -> Seq<
    Seq<char>,
> {
    lines_of(text).filter(
        |line: Seq<char>| contains(lowercase_of(line), lowercase_of(query)),
    )
}

/// What the search in the given mode lists.
pub open spec fn found_lines(query: Seq<char>, text: Seq<char>, case_insensitive: bool) -> Seq<
    Seq<char>,
> {
    if case_insensitive {
        matching_lines_ignoring_case(query, text)
    } else {
        matching_lines(query, text)
    }
}

/// Taking one more element into a filtered prefix.
proof fn lemma_filter_next<A>(s: Seq<A>, keep: spec_fn(A) -> bool, i: int)
    requires
        0 <= i < s.len(),
    ensures
        s.subrange(0, i + 1).filter(keep) == if keep(s[i]) {
            s.subrange(0, i).filter(keep).push(s[i])
        } else {
            s.subrange(0, i).filter(keep)
        },
{
    reveal(Seq::filter);
    assert(s.subrange(0, i + 1).drop_last() =~= s.subrange(0, i));
}

/// Every line of `contents` that holds `query`, in order.
pub fn search<'a>(query: &str, contents: &'a str) -> (found: Vec<&'a str>)
    ensures
        views(found@) == matching_lines(query@, contents@),
{
    let query_chars = chars_of(query);
    let lines = split_lines(contents);
    let mut found: Vec<&'a str> = Vec::new();
    let ghost keep = |line: Seq<char>| contains(line, query@);
    let ghost all = lines_of(contents@);
    assert(views(found@) =~= all.subrange(0, 0).filter(keep)) by {
        reveal(Seq::filter);
    }
    let mut i: usize = 0;
    while i < lines.len()
        invariant
            i <= lines.len(),
            query_chars@ == query@,
            views(lines@) == all,
            all == lines_of(contents@),
            keep == (|line: Seq<char>| contains(line, query@)),
            views(found@) == all.subrange(0, i as int).filter(keep),
        decreases lines.len() - i,
    {
        let line = lines[i];
        let line_chars = chars_of(line);
        proof {
            assert(all[i as int] == line@);
            lemma_filter_next(all, keep, i as int);
        }
        if contains_chars(&line_chars, &query_chars) {
            assert(views(found@.push(line)) =~= views(found@).push(line@));
            found.push(line);
        }
        i += 1;
    }
    assert(all.subrange(0, i as int) =~= all);
    found
}

/// Every line of `contents` that holds `query` when letter case is set
/// aside, in order: both are compared in their lower-case forms.
pub fn search_case_insensitive<'a>(query: &str, contents: &'a str) -> (found: Vec<&'a str>)
    ensures
        views(found@) == matching_lines_ignoring_case(query@, contents@),
{
    let lower_query = lowercase(query);
    let query_chars = chars_of(lower_query.as_str());
    let lines = split_lines(contents);
    let mut found: Vec<&'a str> = Vec::new();
    let ghost keep = |line: Seq<char>| contains(lowercase_of(line), lowercase_of(query@));
    let ghost all = lines_of(contents@);
    assert(views(found@) =~= all.subrange(0, 0).filter(keep)) by {
        reveal(Seq::filter);
    }
    let mut i: usize = 0;
    while i < lines.len()
        invariant
            i <= lines.len(),
            query_chars@ == lowercase_of(query@),
            views(lines@) == all,
            all == lines_of(contents@),
            keep == (|line: Seq<char>| contains(lowercase_of(line), lowercase_of(query@))),
            views(found@) == all.subrange(0, i as int).filter(keep),
        decreases lines.len() - i,
    {
        let line = lines[i];
        let lower_line = lowercase(line);
        let line_chars = chars_of(lower_line.as_str());
        proof {
            assert(all[i as int] == line@);
            lemma_filter_next(all, keep, i as int);
        }
        if contains_chars(&line_chars, &query_chars) {
            assert(views(found@.push(line)) =~= views(found@).push(line@));
            found.push(line);
        }
        i += 1;
    }
    assert(all.subrange(0, i as int) =~= all);
    found
}

} // verus!
