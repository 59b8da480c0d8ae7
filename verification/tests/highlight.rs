use minigrep::{highlight_line, highlight_with, run, Config};

fn config(query: &str, case_insensitive: bool) -> Config {
    Config {
        query: query.to_string(),
        filename: String::from("poem.txt"),
        case_insensitive,
    }
}

#[test]
fn marks_every_occurrence_of_the_query() {
    let shown = highlight_with("there the", &config("the", false), "<the>", "", "");
    assert_eq!("<the>re <the>", shown);
}

#[test]
fn case_sensitive_mode_has_one_pass() {
    let shown = highlight_with("The the THE", &config("THE", false), "<THE>", "the", "<the>");
    assert_eq!("The the <THE>", shown);
}

#[test]
fn case_insensitive_mode_has_a_second_pass_for_the_lowercase_form() {
    let shown = highlight_with("The the THE", &config("THE", true), "<THE>", "the", "<the>");
    assert_eq!("The <the> <THE>", shown);
}

#[test]
fn second_pass_works_on_what_the_first_gave() {
    let shown = highlight_with("a the", &config("the", true), "<the>", "the", "[the]");
    assert_eq!("a <[the]>", shown);
}

#[test]
fn line_without_the_query_is_unchanged() {
    let shown = highlight_with("nothing here", &config("the", true), "<the>", "the", "<the>");
    assert_eq!("nothing here", shown);
}

#[test]
fn colours_on_and_off() {
    colored::control::set_override(false);
    assert_eq!("there the", highlight_line("there the", &config("the", false)));
    assert_eq!("The the", highlight_line("The the", &config("THE", true)));

    colored::control::set_override(true);
    assert_eq!(
        "\u{1b}[31mthe\u{1b}[0mre \u{1b}[31mthe\u{1b}[0m",
        highlight_line("there the", &config("the", false))
    );
    assert_eq!(
        "The \u{1b}[31mthe\u{1b}[0m \u{1b}[31mTHE\u{1b}[0m",
        highlight_line("The the THE", &config("THE", true))
    );
    assert_eq!(
        "x\u{1b}[31ma\u{1b}[0m\u{1b}[31mb\u{1b}[0my",
        highlight_line("xa\u{1b}[0mby", &config("a\u{1b}[0mb", false))
    );

    let contents = "Rust:\nsafe, fast, productive.\nPick three.\nDuct tape.";
    assert_eq!(
        vec!["safe, fast, pro\u{1b}[31mduct\u{1b}[0mive."],
        run(&config("duct", false), contents)
    );
    assert_eq!(
        vec![
            "safe, fast, pro\u{1b}[31mduct\u{1b}[0mive.",
            "\u{1b}[31mDuct\u{1b}[0m tape."
        ],
        run(&config("Duct", true), contents)
    );

    colored::control::set_override(false);
    assert_eq!(
        vec!["safe, fast, productive.", "Duct tape."],
        run(&config("DUCT", true), contents)
    );
    colored::control::unset_override();
}

#[test]
fn run_shows_one_line_for_each_match() {
    let contents = "Rust:\nsafe, fast, productive.\nPick three.\nDuct tape.";
    assert_eq!(1, run(&config("duct", false), contents).len());
    assert_eq!(2, run(&config("duct", true), contents).len());
    assert_eq!(4, run(&config("", false), contents).len());
}

#[test]
fn run_shows_nothing_without_a_match() {
    let contents = "Rust:\nsafe, fast, productive.\nPick three.";
    assert!(run(&config("zebra", false), contents).is_empty());
    assert!(run(&config("zebra", true), contents).is_empty());
    assert!(run(&config("RUST", false), contents).is_empty());
    assert!(run(&config("x", false), "").is_empty());
}
