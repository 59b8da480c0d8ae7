//! Marking the query inside a matching line, and the lines that one run shows.

use crate::config::Config;
use crate::search::{found_lines, lowercase, lowercase_of, search, search_case_insensitive};
use crate::text::{replace_all, replaced, views};
use colored::Colorize;
use vstd::prelude::*;

verus! {

/// The escape sequence that switches the foreground colour to red.
pub open spec fn red_start() -> Seq<char> {
    seq!['\u{1b}', '[', '3', '1', 'm']
}

/// The escape sequence that switches all styling off.
pub open spec fn style_reset() -> Seq<char> {
    seq!['\u{1b}', '[', '0', 'm']
}

/// A text set in red for a terminal: red is switched on before it and
/// everything off after it, and switched on again after each reset that the
/// text itself holds.
pub open spec fn red_form(text: Seq<char>) -> Seq<char> {
    red_start() + replaced(text, style_reset(), style_reset() + red_start()) + style_reset()
}

/// A text as it is emphasised, with colours switched on or off.
pub open spec fn emphasis(text: Seq<char>, colours: bool) -> Seq<char> {
    if colours {
        red_form(text)
    } else {
        text
    }
}

/// Calls `colored::Colorize::red` on the text and renders the coloured string
/// with `to_string`. Believed, not proved: where the crate finds colours
/// switched off (by the environment, for want of a terminal, or by an
/// override) the text comes back as it is; otherwise it comes back in its red
/// form. Which of the two is not known here. This takes it that no other
/// thread changes the crate's colour override while the call runs.
#[verifier::external_body]
pub(crate) fn red(text: &str) -> (shown: String)
    ensures
        shown@ == emphasis(text@, false) || shown@ == emphasis(text@, true),
{
    text.red().to_string()
}

/// A line with the query marked: each occurrence of `query` becomes
/// `shown_query`; where case is set aside, each occurrence of `lower_query`
/// in what that gave then becomes `shown_lower`.
pub open spec fn highlighted(
    line: Seq<char>,
    query: Seq<char>,
    shown_query: Seq<char>,
    case_insensitive: bool,
    lower_query: Seq<char>,
    shown_lower: Seq<char>,
) -> Seq<char> {
    let first = replaced(line, query, shown_query);
    if case_insensitive {
        replaced(first, lower_query, shown_lower)
    } else {
        first
    }
}

/// A marked line where the emphasis of the query and of its lower-case form
/// were rendered with colours on or off.
pub open spec fn rendering(
    line: Seq<char>,
    query: Seq<char>,
    case_insensitive: bool,
    first_colours: bool,
    second_colours: bool,
) -> Seq<char> {
    highlighted(
        line,
        query,
        emphasis(query, first_colours),
        case_insensitive,
        lowercase_of(query),
        emphasis(lowercase_of(query), second_colours),
    )
}

/// `shown` is the line with the query marked, whatever the terminal settings
/// were at either pass.
pub open spec fn is_rendering(
    line: Seq<char>,
    query: Seq<char>,
    case_insensitive: bool,
    shown: Seq<char>,
) -> bool {
    exists|first_colours: bool, second_colours: bool|
        shown == #[trigger] rendering(
            line,
            query,
            case_insensitive,
            first_colours,
            second_colours,
        )
}

/// Marks the query in `line`, given the emphasised forms to put in its place:
/// first `shown_query` for the query as written, then, in case-insensitive
/// mode only, `shown_lower` for `lower_query`.
pub fn highlight_with(
    line: &str,
    config: &Config,
    shown_query: &str,
    lower_query: &str,
    shown_lower: &str,
) -> (shown: String)
    ensures
        shown@ == highlighted(
            line@,
            config.query@,
            shown_query@,
            config.case_insensitive,
            lower_query@,
            shown_lower@,
        ),
{
    let first = replace_all(line, config.query.as_str(), shown_query);
    if config.case_insensitive {
        replace_all(first.as_str(), lower_query, shown_lower)
    } else {
        first
    }
}

/// The line as it is shown: the query emphasised wherever it stands, and in
/// case-insensitive mode its lower-case form as well, in a second pass.
pub fn highlight_line(line: &str, config: &Config) -> (shown: String)
    ensures
        is_rendering(line@, config.query@, config.case_insensitive, shown@),
{
    let shown_query = red(config.query.as_str());
    if config.case_insensitive {
        let lower_query = lowercase(config.query.as_str());
        let shown_lower = red(lower_query.as_str());
        let shown = highlight_with(
            line,
            config,
            shown_query.as_str(),
            lower_query.as_str(),
            shown_lower.as_str(),
        );
        proof {
            let first = shown_query@ == emphasis(config.query@, true);
            let second = shown_lower@ == emphasis(lowercase_of(config.query@), true);
            assert(shown@ == rendering(line@, config.query@, true, first, second));
        }
        shown
    } else {
        let shown = highlight_with(line, config, shown_query.as_str(), "", "");
        proof {
            let first = shown_query@ == emphasis(config.query@, true);
            assert(shown@ == rendering(line@, config.query@, false, first, false));
        }
        shown
    }
}

/// One search over the contents of a file: the selected lines in order, each
/// as it is to be shown.
pub fn run(config: &Config, contents: &str) -> (shown: Vec<String>)
    ensures
        shown@.len() == found_lines(config.query@, contents@, config.case_insensitive).len(),
        forall|i: int|
            0 <= i < shown@.len() ==> is_rendering(
                found_lines(config.query@, contents@, config.case_insensitive)[i],
                config.query@,
                config.case_insensitive,
                #[trigger] shown@[i]@,
            ),
{
    let lines = if config.case_insensitive {
        search_case_insensitive(config.query.as_str(), contents)
    } else {
        search(config.query.as_str(), contents)
    };
    let mut shown: Vec<String> = Vec::new();
    let mut i: usize = 0;
    while i < lines.len()
        invariant
            i <= lines.len(),
            views(lines@) == found_lines(config.query@, contents@, config.case_insensitive),
            shown@.len() == i,
            forall|k: int|
                0 <= k < i ==> is_rendering(
                    lines@[k]@,
                    config.query@,
                    config.case_insensitive,
                    #[trigger] shown@[k]@,
                ),
        decreases lines.len() - i,
    {
        let one = highlight_line(lines[i], config);
        shown.push(one);
        i += 1;
    }
    assert forall|k: int| 0 <= k < shown@.len() implies is_rendering(
        found_lines(config.query@, contents@, config.case_insensitive)[k],
        config.query@,
        config.case_insensitive,
        #[trigger] shown@[k]@,
    ) by {
        assert(views(lines@)[k] == lines@[k]@);
    }
    shown
}

} // verus!
