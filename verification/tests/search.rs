use minigrep::text::{contains_str, replace_all, split_lines};
use minigrep::{search, search_case_insensitive};

const POEM: &str = "\
I'm nobody! Who are you?
Are you nobody, too?
Then there's a pair of us - don't tell!
They'd banish us, you know.

How dreary to be somebody!
How public, like a frog
To tell your name the livelong day
To an admiring bog!";

#[test]
fn case_sensitive() {
    let query = "the";
    let contents = "\
I'm nobody! Who are you?
Are you nobody, too?
Then there's a pair of us - don't tell!
They'd banish us, you know.

How dreary to be somebody!
How public, like a frog
To tell your name the livelong day
To an admiring bog!";

    assert_eq!(
        vec![
            "Then there's a pair of us - don't tell!",
            "To tell your name the livelong day"
        ],
        search(query, contents)
    );
}

#[test]
fn case_insensitive() {
    let query = "THE";
    let contents = "\
I'm nobody! Who are you?
Are you nobody, too?
Then there's a pair of us - don't tell!
They'd banish us, you know.

How dreary to be somebody!
How public, like a frog
To tell your name the livelong day
To an admiring bog!";

    assert_eq!(
        vec![
            "Then there's a pair of us - don't tell!",
            "They'd banish us, you know.",
            "To tell your name the livelong day"
        ],
        search_case_insensitive(query, contents)
    );
}

#[test]
fn one_result() {
    let contents = "Rust:\nsafe, fast, productive.\nPick three.";
    assert_eq!(vec!["safe, fast, productive."], search("duct", contents));
}

#[test]
fn case_sensitive_search_skips_other_case() {
    let contents = "Rust:\nsafe, fast, productive.\nPick three.\nDuct tape.";
    assert_eq!(vec!["safe, fast, productive."], search("duct", contents));
    assert_eq!(
        vec!["safe, fast, productive.", "Duct tape."],
        search_case_insensitive("dUcT", contents)
    );
}

#[test]
fn empty_query_lists_every_line() {
    let all: Vec<&str> = POEM.lines().collect();
    assert_eq!(9, all.len());
    assert_eq!(all, search("", POEM));
    assert_eq!(all, search_case_insensitive("", POEM));
    assert_eq!(vec![""; 0], search("", ""));
    assert_eq!(vec!["", ""], search("", "\n\n"));
}

#[test]
fn no_match_lists_nothing() {
    assert!(search("zebra", POEM).is_empty());
    assert!(search_case_insensitive("ZEBRA", POEM).is_empty());
    assert!(search("THE", POEM).is_empty());
    assert!(search("a\nb", "a\nb").is_empty());
}

#[test]
fn a_line_with_several_occurrences_is_listed_once() {
    assert_eq!(vec!["the the the"], search("the", "no\nthe the the\nnone"));
}

#[test]
fn equal_lines_are_each_listed() {
    assert_eq!(vec!["ab", "ab", "cab"], search("ab", "ab\nxy\nab\ncab\n"));
}

#[test]
fn searching_twice_gives_the_same() {
    assert_eq!(search("the", POEM), search("the", POEM));
    assert_eq!(
        search_case_insensitive("To", POEM),
        search_case_insensitive("To", POEM)
    );
}

#[test]
fn lowercase_query_finds_at_least_the_exact_matches() {
    let exact = search("the", POEM);
    let loose = search_case_insensitive("the", POEM);
    for line in exact.iter() {
        assert!(loose.contains(line));
    }
    assert_eq!(2, exact.len());
    assert_eq!(3, loose.len());
}

#[test]
fn case_insensitive_search_compares_lowercase_forms() {
    assert_eq!(
        vec!["GRÜSSE", "grüße Grüsse"],
        search_case_insensitive("Üss", "GRÜSSE\ngrüße Grüsse\nGRUSS")
    );
    assert_eq!(vec!["ÉCOLE"], search_case_insensitive("école", "ÉCOLE\necole"));
}

#[test]
fn found_lines_are_slices_of_the_contents() {
    let contents = String::from("one\ntwo\nthree");
    let found = search("t", &contents);
    assert_eq!(vec!["two", "three"], found);
    let base = contents.as_ptr() as usize;
    assert_eq!(base + 4, found[0].as_ptr() as usize);
    assert_eq!(base + 8, found[1].as_ptr() as usize);
}

#[test]
fn lines_end_at_line_feeds() {
    assert_eq!(vec!["a", "b"], split_lines("a\nb"));
    assert_eq!(vec!["a", "b"], split_lines("a\nb\n"));
    assert_eq!(vec!["a", "", "b"], split_lines("a\n\nb"));
    assert_eq!(vec![""], split_lines("\n"));
    assert_eq!(vec!["", ""], split_lines("\n\n"));
    assert_eq!(vec![""; 0], split_lines(""));
    assert_eq!(vec!["abc"], split_lines("abc"));
}

#[test]
fn carriage_return_belongs_to_the_ending_only_before_a_line_feed() {
    assert_eq!(vec!["a", "b"], split_lines("a\r\nb\r\n"));
    assert_eq!(vec!["a\rb"], split_lines("a\rb"));
    assert_eq!(vec!["a\r"], split_lines("a\r"));
    assert_eq!(vec!["a\r", "b"], split_lines("a\r\r\nb"));
    assert_eq!(vec!["", "x"], split_lines("\r\nx"));
}

#[test]
fn lines_agree_with_the_standard_library() {
    let texts = [
        "",
        "\n",
        "\r",
        "\r\n",
        "a",
        "a\n",
        "a\r\n\r\nb",
        "é\nüber\r\n日本語\n",
        "x\n\ny\r",
        POEM,
    ];
    for text in texts.iter() {
        let expected: Vec<&str> = text.lines().collect();
        assert_eq!(expected, split_lines(text));
    }
}

#[test]
fn containment() {
    assert!(contains_str("productive", "duct"));
    assert!(contains_str("productive", ""));
    assert!(contains_str("", ""));
    assert!(contains_str("abc", "abc"));
    assert!(contains_str("abc", "c"));
    assert!(contains_str("aab", "ab"));
    assert!(contains_str("日本語", "本語"));
    assert!(!contains_str("", "a"));
    assert!(!contains_str("abc", "abcd"));
    assert!(!contains_str("abc", "ac"));
    assert!(!contains_str("abc", "B"));
}

#[test]
fn replacement_exact_values() {
    assert_eq!("this is new", replace_all("this is old", "old", "new"));
    assert_eq!("than an old", replace_all("this is old", "is", "an"));
    assert_eq!("ba", replace_all("aaa", "aa", "b"));
    assert_eq!("abc", replace_all("abc", "x", "y"));
    assert_eq!("", replace_all("", "x", "y"));
    assert_eq!("-a-b-c-", replace_all("abc", "", "-"));
    assert_eq!("-", replace_all("", "", "-"));
    assert_eq!("", replace_all("abab", "ab", ""));
    assert_eq!("xéx", replace_all("üéü", "ü", "x"));
    assert_eq!("[the]re [the]", replace_all("there the", "the", "[the]"));
}

#[test]
fn replacement_agrees_with_the_standard_library() {
    let cases = [
        ("", "", ""),
        ("", "", "x"),
        ("abc", "", "--"),
        ("aaaa", "aa", "a"),
        ("aaaaa", "aa", "b"),
        ("abcabc", "bc", "bcbc"),
        ("abc", "abcd", "x"),
        ("日本語日本", "日本", "に"),
        ("mississippi", "ssi", "SSI"),
        ("mississippi", "issi", "!"),
    ];
    for (s, from, to) in cases.iter() {
        assert_eq!(s.replace(from, to), replace_all(s, from, to));
    }
}
