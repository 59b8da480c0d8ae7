//! Text as sequences of characters: containment, lines and replacement.

use vstd::prelude::*;
use vstd::std_specs::iter::IteratorSpec;
use vstd::string::{is_ascii, StrSliceExecFns, StringExecFns};

verus! {

/// `needle` stands in `hay` at index `at`.
pub open spec fn occurs_at(hay: Seq<char>, needle: Seq<char>, at: int) -> bool {
    &&& 0 <= at
    &&& at + needle.len() <= hay.len()
    &&& hay.subrange(at, at + needle.len()) == needle
}

/// `needle` is a contiguous part of `hay`.
pub open spec fn contains(hay: Seq<char>, needle: Seq<char>) -> bool {
    exists|at: int| occurs_at(hay, needle, at)
}

/// The characters of a string slice, in order.
pub fn chars_of(s: &str) -> (chars: Vec<char>)
    ensures
        chars@ == s@,
{
    let mut chars: Vec<char> = Vec::new();
    for c in rest: s.chars()
        invariant
            rest.seq() == s@,
            chars@ == s@.subrange(0, rest.index()),
    {
        chars.push(c);
    }
    chars
}

/// Whether `needle` stands in `hay` at index `at`.
pub fn occurs_at_index(hay: &Vec<char>, needle: &Vec<char>, at: usize) -> (found: bool)
    ensures
        found == occurs_at(hay@, needle@, at as int),
{
    if needle.len() > hay.len() || at > hay.len() - needle.len() {
        return false;
    }
    let mut k: usize = 0;
    while k < needle.len()
        invariant
            k <= needle.len(),
            at + needle.len() <= hay.len(),
            forall|j: int| 0 <= j < k ==> hay@[at + j] == needle@[j],
        decreases needle.len() - k,
    {
        if hay[at + k] != needle[k] {
            assert(hay@.subrange(at as int, at + needle.len())[k as int] == hay@[at + k]);
            return false;
        }
        k += 1;
    }
    assert(hay@.subrange(at as int, at + needle.len()) =~= needle@);
    true
}

/// Whether `needle` is a contiguous part of `hay`.
pub fn contains_chars(hay: &Vec<char>, needle: &Vec<char>) -> (found: bool)
    ensures
        found == contains(hay@, needle@),
{
    if needle.len() > hay.len() {
        return false;
    }
    if needle.len() == 0 {
        assert(occurs_at(hay@, needle@, 0)) by {
            assert(hay@.subrange(0, 0) =~= needle@);
        }
        return true;
    }
    let last: usize = hay.len() - needle.len();
    let mut at: usize = 0;
    while at <= last
        invariant
            at <= last + 1,
            last + needle.len() == hay.len(),
            needle.len() > 0,
            forall|j: int| 0 <= j < at ==> !occurs_at(hay@, needle@, j),
        decreases last + 1 - at,
    {
        if occurs_at_index(hay, needle, at) {
            return true;
        }
        at += 1;
    }
    false
}

/// Whether the text `needle` is a contiguous part of the text `hay`.
pub fn contains_str(hay: &str, needle: &str) -> (found: bool)
    ensures
        found == contains(hay@, needle@),
{
    let hay_chars = chars_of(hay);
    let needle_chars = chars_of(needle);
    contains_chars(&hay_chars, &needle_chars)
}

/// Index `k` holds the first line feed of `s`.
pub open spec fn is_first_newline(s: Seq<char>, k: int) -> bool {
    &&& 0 <= k < s.len()
    &&& s[k] == '\n'
    &&& forall|j: int| 0 <= j < k ==> s[j] != '\n'
}

/// A line as it stood before its line feed, without the carriage return that
/// belongs to the line ending, if there is one.
pub open spec fn without_carriage_return(line: Seq<char>) -> Seq<char> {
    if line.len() > 0 && line.last() == '\r' {
        line.drop_last()
    } else {
        line
    }
}

/// The lines of a text. A line ends at a line feed, or at a carriage return
/// directly followed by one; the ending is no part of the line. The last line
/// needs no ending, and a text that ends with one has no empty line after it.
pub open spec fn lines_of(s: Seq<char>) -> Seq<Seq<char>>
    decreases s.len(),
{
    if s.len() == 0 {
        Seq::empty()
    } else if exists|k: int| is_first_newline(s, k) {
        let k = choose|k: int| is_first_newline(s, k);
        seq![without_carriage_return(s.subrange(0, k))] + lines_of(
            s.subrange(k + 1, s.len() as int),
        )
    } else {
        seq![s]
    }
}

/// The contents of each of a sequence of string slices.
pub open spec fn views(slices: Seq<&str>) -> Seq<Seq<char>> {
    slices.map_values(|slice: &str| slice@)
}

/// A text whose first line feed is at `k` is its first line followed by the
/// lines of what stands after that line feed.
pub proof fn lemma_lines_at_newline(s: Seq<char>, k: int)
    requires
        is_first_newline(s, k),
    ensures
        lines_of(s) == seq![without_carriage_return(s.subrange(0, k))] + lines_of(
            s.subrange(k + 1, s.len() as int),
        ),
{
    let c = choose|c: int| is_first_newline(s, c);
    assert(c == k) by {
        if c < k {
            assert(s[c] == '\n');
        }
        if k < c {
            assert(s[k] == '\n');
        }
    }
}

/// A text without a line feed is one line, unless it is empty.
pub proof fn lemma_lines_without_newline(s: Seq<char>)
    requires
        forall|j: int| 0 <= j < s.len() ==> s[j] != '\n',
    ensures
        lines_of(s) == if s.len() == 0 {
            Seq::<Seq<char>>::empty()
        } else {
            seq![s]
        },
{
    if s.len() > 0 {
        assert forall|k: int| !is_first_newline(s, k) by {
            if 0 <= k < s.len() {
                assert(s[k] != '\n');
            }
        }
    }
}

/// The part of `text` from character `from` up to character `to`, as a slice
/// of it. Where the caller knows the text to be ASCII the cut takes constant
/// time; otherwise the text is walked up to `to`.
pub fn slice_chars<'a>(text: &'a str, ascii: bool, from: usize, to: usize) -> (part: &'a str)
    requires
        from <= to <= text@.len(),
        ascii ==> is_ascii(text),
    ensures
        part@ == text@.subrange(from as int, to as int),
{
    if ascii {
        text.substring_ascii(from, to)
    } else {
        text.substring_char(from, to)
    }
}

/// The lines of a text, each a slice of it.
pub fn split_lines<'a>(text: &'a str) -> (lines: Vec<&'a str>)
    ensures
        views(lines@) == lines_of(text@),
{
    let chars = chars_of(text);
    let ascii = text.is_ascii();
    let n: usize = chars.len();
    let mut lines: Vec<&'a str> = Vec::new();
    let mut start: usize = 0;
    let mut i: usize = 0;
    assert(text@.subrange(0, n as int) =~= text@);
    assert(views(lines@) =~= Seq::<Seq<char>>::empty());
    while i < n
        invariant
            chars@ == text@,
            ascii ==> is_ascii(text),
            n == chars.len(),
            start <= i <= n,
            forall|j: int| start <= j < i ==> chars@[j] != '\n',
            views(lines@) + lines_of(text@.subrange(start as int, n as int)) == lines_of(text@),
        decreases n - i,
    {
        if chars[i] == '\n' {
            let end: usize = if i > start && chars[i - 1] == '\r' {
                i - 1
            } else {
                i
            };
            let line = slice_chars(text, ascii, start, end);
            proof {
                let rest = text@.subrange(start as int, n as int);
                let k = i - start;
                assert(is_first_newline(rest, k));
                lemma_lines_at_newline(rest, k);
                assert(rest.subrange(0, k) =~= text@.subrange(start as int, i as int));
                assert(rest.subrange(k + 1, rest.len() as int) =~= text@.subrange(
                    i + 1,
                    n as int,
                ));
                assert(line@ =~= without_carriage_return(rest.subrange(0, k)));
                assert(views(lines@.push(line)) =~= views(lines@) + seq![line@]);
                assert(views(lines@.push(line)) + lines_of(text@.subrange(i + 1, n as int))
                    =~= views(lines@) + lines_of(rest));
            }
            lines.push(line);
            start = i + 1;
        }
        i += 1;
    }
    proof {
        lemma_lines_without_newline(text@.subrange(start as int, n as int));
    }
    if start < n {
        let line = slice_chars(text, ascii, start, n);
        proof {
            assert(views(lines@.push(line)) =~= views(lines@) + seq![line@]);
        }
        lines.push(line);
    } else {
        assert(views(lines@) + Seq::<Seq<char>>::empty() =~= views(lines@));
    }
    lines
}

/// The text `s` with each occurrence of `from` replaced by `to`, taken from
/// the left and without overlap. An empty `from` occurs before each character
/// and at the end.
pub open spec fn replaced(s: Seq<char>, from: Seq<char>, to: Seq<char>) -> Seq<char>
    decreases s.len(),
{
    if from.len() == 0 {
        if s.len() == 0 {
            to
        } else {
            to + seq![s[0]] + replaced(s.drop_first(), from, to)
        }
    } else if occurs_at(s, from, 0) {
        to + replaced(s.subrange(from.len() as int, s.len() as int), from, to)
    } else if s.len() == 0 {
        s
    } else {
        seq![s[0]] + replaced(s.drop_first(), from, to)
    }
}

/// The text `s` with each occurrence of `from` replaced by `to`.
pub fn replace_all(s: &str, from: &str, to: &str) -> (out: String)
    ensures
        out@ == replaced(s@, from@, to@),
{
    let hay = chars_of(s);
    let needle = chars_of(from);
    let ascii = s.is_ascii();
    let n: usize = hay.len();
    let m: usize = needle.len();
    let mut out = String::new();
    let mut kept: usize = 0;
    let mut i: usize = 0;
    assert(s@.subrange(0, n as int) =~= s@);
    assert(out@ + s@.subrange(0, 0) + replaced(s@, from@, to@) =~= replaced(s@, from@, to@));
    while i < n
        invariant
            hay@ == s@,
            needle@ == from@,
            ascii ==> is_ascii(s),
            n == hay.len(),
            m == needle.len(),
            kept <= i <= n,
            m == 0 ==> kept == i,
            out@ + s@.subrange(kept as int, i as int) + replaced(
                s@.subrange(i as int, n as int),
                from@,
                to@,
            ) == replaced(s@, from@, to@),
        decreases n - i,
    {
        let ghost rest = s@.subrange(i as int, n as int);
        let ghost before = out@ + s@.subrange(kept as int, i as int);
        if m == 0 {
            out.append(to);
            out.append(slice_chars(s, ascii, i, i + 1));
            proof {
                assert(rest.drop_first() =~= s@.subrange(i + 1, n as int));
                assert(out@ + s@.subrange(i + 1, i + 1) =~= before + to@ + seq![rest[0]]);
                assert(out@ + s@.subrange(i + 1, i + 1) + replaced(rest.drop_first(), from@, to@)
                    =~= before + replaced(rest, from@, to@));
            }
            i += 1;
            kept = i;
        } else if occurs_at_index(&hay, &needle, i) {
            out.append(slice_chars(s, ascii, kept, i));
            out.append(to);
            proof {
                assert(rest.subrange(0, m as int) =~= s@.subrange(i as int, i + m));
                assert(occurs_at(rest, from@, 0));
                assert(rest.subrange(m as int, rest.len() as int) =~= s@.subrange(
                    i + m,
                    n as int,
                ));
                assert(out@ + s@.subrange(i + m, i + m) =~= before + to@);
                assert(out@ + s@.subrange(i + m, i + m) + replaced(
                    s@.subrange(i + m, n as int),
                    from@,
                    to@,
                ) =~= before + replaced(rest, from@, to@));
            }
            i += m;
            kept = i;
        } else {
            proof {
                assert(!occurs_at(rest, from@, 0)) by {
                    if occurs_at(rest, from@, 0) {
                        assert(rest.subrange(0, m as int) =~= s@.subrange(i as int, i + m));
                    }
                }
                assert(rest.drop_first() =~= s@.subrange(i + 1, n as int));
                assert(out@ + s@.subrange(kept as int, i + 1) =~= before + seq![rest[0]]);
                assert(out@ + s@.subrange(kept as int, i + 1) + replaced(
                    rest.drop_first(),
                    from@,
                    to@,
                ) =~= before + replaced(rest, from@, to@));
            }
            i += 1;
        }
    }
    out.append(slice_chars(s, ascii, kept, n));
    if m == 0 {
        out.append(to);
    }
    proof {
        assert(s@.subrange(n as int, n as int) =~= Seq::<char>::empty());
    }
    out
}

} // verus!
