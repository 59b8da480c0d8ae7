//! What holds of the searches on every query and every text.

use crate::config::Config;
use crate::search::{found_lines, lowercase_of, matching_lines, matching_lines_ignoring_case};
use crate::text::{contains, lines_of, occurs_at, views};
use vstd::prelude::*;

verus! {

/// A filter that accepts every element keeps the sequence as it is.
pub proof fn lemma_filter_keeps_all<A>(s: Seq<A>, keep: spec_fn(A) -> bool)
    requires
        forall|i: int| 0 <= i < s.len() ==> keep(#[trigger] s[i]),
    ensures
        s.filter(keep) == s,
    decreases s.len(),
{
    reveal(Seq::filter);
    if s.len() > 0 {
        assert(keep(s[s.len() - 1]));
        assert forall|i: int| 0 <= i < s.drop_last().len() implies keep(
            #[trigger] s.drop_last()[i],
        ) by {
            assert(s.drop_last()[i] == s[i]);
        }
        lemma_filter_keeps_all(s.drop_last(), keep);
        assert(s.drop_last().push(s.last()) =~= s);
    } else {
        assert(s.filter(keep) =~= s);
    }
}

/// A filter that accepts no element leaves nothing.
pub proof fn lemma_filter_keeps_none<A>(s: Seq<A>, keep: spec_fn(A) -> bool)
    requires
        forall|i: int| 0 <= i < s.len() ==> !keep(#[trigger] s[i]),
    ensures
        s.filter(keep) == Seq::<A>::empty(),
    decreases s.len(),
{
    reveal(Seq::filter);
    if s.len() > 0 {
        assert(!keep(s[s.len() - 1]));
        assert forall|i: int| 0 <= i < s.drop_last().len() implies !keep(
            #[trigger] s.drop_last()[i],
        ) by {
            assert(s.drop_last()[i] == s[i]);
        }
        lemma_filter_keeps_none(s.drop_last(), keep);
    }
}

/// Two filters that agree on every element of a sequence keep the same
/// elements of it.
pub proof fn lemma_filters_agree<A>(s: Seq<A>, one: spec_fn(A) -> bool, other: spec_fn(A) -> bool)
    requires
        forall|i: int| 0 <= i < s.len() ==> one(#[trigger] s[i]) == other(s[i]),
    ensures
        s.filter(one) == s.filter(other),
    decreases s.len(),
{
    reveal(Seq::filter);
    if s.len() > 0 {
        assert(one(s[s.len() - 1]) == other(s[s.len() - 1]));
        assert forall|i: int| 0 <= i < s.drop_last().len() implies one(
            #[trigger] s.drop_last()[i],
        ) == other(s.drop_last()[i]) by {
            assert(s.drop_last()[i] == s[i]);
        }
        lemma_filters_agree(s.drop_last(), one, other);
    }
}

/// A filter keeps the order: of two elements that it kept, the one that
/// comes first among the kept comes first in the sequence too.
pub proof fn lemma_filter_keeps_order<A>(s: Seq<A>, keep: spec_fn(A) -> bool, a: int, b: int)
    requires
        0 <= a < b < s.filter(keep).len(),
    ensures
        exists|i: int, j: int|
            0 <= i < j < s.len() && #[trigger] s[i] == s.filter(keep)[a] && #[trigger] s[j]
                == s.filter(keep)[b],
    decreases s.len(),
{
    reveal(Seq::filter);
    let kept = s.filter(keep);
    if s.len() > 0 {
        let front = s.drop_last();
        let front_kept = front.filter(keep);
        if keep(s.last()) && b == front_kept.len() {
            assert(kept[b] == s.last());
            assert(kept[a] == front_kept[a]);
            assert(front_kept.contains(front_kept[a]));
            front.lemma_filter_contains_rev(keep, front_kept[a]);
            let i = choose|i: int| 0 <= i < front.len() && front[i] == front_kept[a];
            let j = s.len() - 1;
            assert(s[i] == front[i]);
            assert(0 <= i < j < s.len() && s[i] == kept[a] && s[j] == kept[b]);
        } else {
            lemma_filter_keeps_order(front, keep, a, b);
            let (i, j) = choose|i: int, j: int|
                0 <= i < j < front.len() && #[trigger] front[i] == front_kept[a]
                    && #[trigger] front[j] == front_kept[b];
            assert(s[i] == front[i] && s[j] == front[j]);
            assert(0 <= i < j < s.len() && s[i] == kept[a] && s[j] == kept[b]);
        }
    }
}

/// The case-sensitive search lists every line of the text that holds the
/// query, and nothing else: each line of the text that holds the query is in
/// the result, and each entry of the result is a line of the text that holds
/// the query.
pub proof fn lemma_search_selects_exactly(query: Seq<char>, text: Seq<char>)
    ensures
        forall|i: int|
            0 <= i < lines_of(text).len() && contains(#[trigger] lines_of(text)[i], query)
                ==> matching_lines(query, text).contains(lines_of(text)[i]),
        forall|j: int|
            0 <= j < matching_lines(query, text).len() ==> {
                &&& contains(#[trigger] matching_lines(query, text)[j], query)
                &&& lines_of(text).contains(matching_lines(query, text)[j])
            },
{
    let lines = lines_of(text);
    let keep = |line: Seq<char>| contains(line, query);
    let found = matching_lines(query, text);
    assert forall|i: int| 0 <= i < lines.len() && contains(#[trigger] lines[i], query) implies found.contains(
        lines[i],
    ) by {
        assert(keep(lines[i]));
        lines.lemma_filter_contains(keep, i);
    }
    assert forall|j: int| 0 <= j < found.len() implies contains(#[trigger] found[j], query)
        && lines.contains(found[j]) by {
        lines.lemma_filter_pred(keep, j);
        assert(keep(found[j]));
        assert(found.contains(found[j]));
        lines.lemma_filter_contains_rev(keep, found[j]);
    }
}

/// The case-insensitive search lists every line of the text whose lower-case
/// form holds the lower-case form of the query, and nothing else.
pub proof fn lemma_search_case_insensitive_selects_exactly(query: Seq<char>, text: Seq<char>)
    ensures
        forall|i: int|
            0 <= i < lines_of(text).len() && contains(
                lowercase_of(#[trigger] lines_of(text)[i]),
                lowercase_of(query),
            ) ==> matching_lines_ignoring_case(query, text).contains(lines_of(text)[i]),
        forall|j: int|
            0 <= j < matching_lines_ignoring_case(query, text).len() ==> {
                &&& contains(
                    lowercase_of(#[trigger] matching_lines_ignoring_case(query, text)[j]),
                    lowercase_of(query),
                )
                &&& lines_of(text).contains(matching_lines_ignoring_case(query, text)[j])
            },
{
    let lines = lines_of(text);
    let keep = |line: Seq<char>| contains(lowercase_of(line), lowercase_of(query));
    let found = matching_lines_ignoring_case(query, text);
    assert forall|i: int|
        0 <= i < lines.len() && contains(
            lowercase_of(#[trigger] lines[i]),
            lowercase_of(query),
        ) implies found.contains(lines[i]) by {
        assert(keep(lines[i]));
        lines.lemma_filter_contains(keep, i);
    }
    assert forall|j: int| 0 <= j < found.len() implies contains(
        lowercase_of(#[trigger] found[j]),
        lowercase_of(query),
    ) && lines.contains(found[j]) by {
        lines.lemma_filter_pred(keep, j);
        assert(keep(found[j]));
        assert(found.contains(found[j]));
        lines.lemma_filter_contains_rev(keep, found[j]);
    }
}

/// Both searches list the lines in the order of the text: of two entries of
/// a result, the earlier one is an earlier line of the text.
pub proof fn lemma_search_keeps_order(
    query: Seq<char>,
    text: Seq<char>,
    case_insensitive: bool,
    a: int,
    b: int,
)
    requires
        0 <= a < b < found_lines(query, text, case_insensitive).len(),
    ensures
        exists|i: int, j: int|
            0 <= i < j < lines_of(text).len() && #[trigger] lines_of(text)[i] == found_lines(
                query,
                text,
                case_insensitive,
            )[a] && #[trigger] lines_of(text)[j] == found_lines(query, text, case_insensitive)[b],
{
    if case_insensitive {
        lemma_filter_keeps_order(
            lines_of(text),
            |line: Seq<char>| contains(lowercase_of(line), lowercase_of(query)),
            a,
            b,
        );
    } else {
        lemma_filter_keeps_order(lines_of(text), |line: Seq<char>| contains(line, query), a, b);
    }
}

/// With a query that is its own lower-case form, a line that the
/// case-sensitive search lists and that is its own lower-case form too is
/// listed by the case-insensitive search as well.
pub proof fn lemma_lowercase_match_found_either_way(query: Seq<char>, text: Seq<char>, j: int)
    requires
        lowercase_of(query) == query,
        0 <= j < matching_lines(query, text).len(),
        lowercase_of(matching_lines(query, text)[j]) == matching_lines(query, text)[j],
    ensures
        matching_lines_ignoring_case(query, text).contains(matching_lines(query, text)[j]),
{
    let lines = lines_of(text);
    let line = matching_lines(query, text)[j];
    let loose = |line: Seq<char>| contains(lowercase_of(line), lowercase_of(query));
    lemma_search_selects_exactly(query, text);
    let i = choose|i: int| 0 <= i < lines.len() && lines[i] == line;
    assert(loose(lines[i]));
    lines.lemma_filter_contains(loose, i);
}

/// Where the query and every line of the text are their own lower-case
/// forms, the two searches list the same lines.
pub proof fn lemma_searches_agree_on_lowercase(query: Seq<char>, text: Seq<char>)
    requires
        lowercase_of(query) == query,
        forall|i: int|
            0 <= i < lines_of(text).len() ==> lowercase_of(#[trigger] lines_of(text)[i])
                == lines_of(text)[i],
    ensures
        matching_lines_ignoring_case(query, text) == matching_lines(query, text),
{
    lemma_filters_agree(
        lines_of(text),
        |line: Seq<char>| contains(lowercase_of(line), lowercase_of(query)),
        |line: Seq<char>| contains(line, query),
    );
}

/// Searching again with the same query in the same text gives the same lines
/// in the same order: any two results of `search` agree, and so do any two of
/// `search_case_insensitive`.
pub proof fn lemma_search_repeats(
    query: Seq<char>,
    text: Seq<char>,
    first: Seq<&str>,
    second: Seq<&str>,
    case_insensitive: bool,
)
    requires
        views(first) == found_lines(query, text, case_insensitive),
        views(second) == found_lines(query, text, case_insensitive),
    ensures
        first.len() == second.len(),
        forall|i: int| 0 <= i < first.len() ==> first[i]@ == second[i]@,
{
    assert(views(first).len() == first.len());
    assert(views(second).len() == second.len());
    assert forall|i: int| 0 <= i < first.len() implies first[i]@ == second[i]@ by {
        assert(views(first)[i] == first[i]@);
        assert(views(second)[i] == second[i]@);
    }
}

/// The empty query is held by every line: searching for it lists all the
/// lines of the text.
pub proof fn lemma_empty_query_matches_all(text: Seq<char>)
    ensures
        matching_lines(Seq::<char>::empty(), text) == lines_of(text),
{
    let lines = lines_of(text);
    let query = Seq::<char>::empty();
    let keep = |line: Seq<char>| contains(line, query);
    assert forall|i: int| 0 <= i < lines.len() implies keep(#[trigger] lines[i]) by {
        assert(lines[i].subrange(0, 0) =~= query);
        assert(occurs_at(lines[i], query, 0));
    }
    lemma_filter_keeps_all(lines, keep);
}

/// Where no line of the text holds the query, the case-sensitive search
/// lists nothing.
pub proof fn lemma_no_match_lists_nothing(query: Seq<char>, text: Seq<char>)
    requires
        forall|i: int| 0 <= i < lines_of(text).len() ==> !contains(#[trigger] lines_of(text)[i], query),
    ensures
        matching_lines(query, text) == Seq::<Seq<char>>::empty(),
{
    lemma_filter_keeps_none(lines_of(text), |line: Seq<char>| contains(line, query));
}

/// Where the lower-case form of no line holds the lower-case form of the
/// query, the case-insensitive search lists nothing.
pub proof fn lemma_no_match_ignoring_case_lists_nothing(query: Seq<char>, text: Seq<char>)
    requires
        forall|i: int|
            0 <= i < lines_of(text).len() ==> !contains(
                lowercase_of(#[trigger] lines_of(text)[i]),
                lowercase_of(query),
            ),
    ensures
        matching_lines_ignoring_case(query, text) == Seq::<Seq<char>>::empty(),
{
    lemma_filter_keeps_none(
        lines_of(text),
        |line: Seq<char>| contains(lowercase_of(line), lowercase_of(query)),
    );
}

/// Where the search that a configuration selects lists nothing, a run shows
/// nothing: any sequence of as many shown lines as selected lines is empty.
pub proof fn lemma_no_match_shows_nothing(config: Config, text: Seq<char>, shown: Seq<String>)
    requires
        shown.len() == found_lines(config.query@, text, config.case_insensitive).len(),
        if config.case_insensitive {
            forall|i: int|
                0 <= i < lines_of(text).len() ==> !contains(
                    lowercase_of(#[trigger] lines_of(text)[i]),
                    lowercase_of(config.query@),
                )
        } else {
            forall|i: int|
                0 <= i < lines_of(text).len() ==> !contains(
                    #[trigger] lines_of(text)[i],
                    config.query@,
                )
        },
    ensures
        shown.len() == 0,
{
    if config.case_insensitive {
        lemma_no_match_ignoring_case_lists_nothing(config.query@, text);
    } else {
        lemma_no_match_lists_nothing(config.query@, text);
    }
}

} // verus!
