use tuipo::lintable::{can_lint, TextToken};
use tuipo::spell::{SpellChecker, SpellIssue};

/// Tokens of a text that holds only words, whitespace and commas: runs of
/// letters and apostrophes, runs of one kind of blank, and single commas.
fn tokens(text: &str) -> Vec<TextToken> {
    let chars: Vec<char> = text.chars().collect();
    let is_blank = |c: char| c == ' ' || c == '\t' || c == '\n';
    let mut out: Vec<TextToken> = Vec::new();
    for (i, &c) in chars.iter().enumerate() {
        let (word, blank) = (!is_blank(c) && c != ',', is_blank(c));
        match out.last_mut() {
            Some(t) if (word && t.word) || (blank && t.blank && chars[i - 1] == c) => t.end += 1,
            _ => out.push(TextToken { start: i, end: i + 1, word, blank }),
        }
    }
    out
}

fn can(text: &str) -> bool {
    can_lint(&text.chars().collect::<Vec<_>>(), &tokens(text))
}

fn words(issues: &[SpellIssue]) -> Vec<&str> {
    issues.iter().map(|i| i.word.as_str()).collect()
}

#[test]
fn ordinary_text_can_be_linted() {
    assert!(can(""));
    assert!(can("I could of done it, of course"));
    assert!(can("you might of course \n see the \t end of it"));
    assert!(can("a scan \nof the American \nof the year, a piece \nof cake"));
    assert!(can("kind of curse"));
}

#[test]
fn of_curse_at_the_start_cannot_be_linted() {
    assert!(!can("of curse"));
    assert!(!can("Of corse, teh cat"));
    assert!(!can("OF \n CURSE"));
    assert!(can("of, curse"));
    assert!(can("of curses"));
    assert!(can("off curse"));
    assert!(can(" of curse"));
}

#[test]
fn matches_of_unknown_length_cannot_be_linted() {
    assert!(!can("could \nof"));
    assert!(!can("They SHOULD\n\tOF gone"));
    assert!(!can("couldn't \nof"));
    assert!(!can("couldn\u{2019}t \nof"));
    assert!(!can("you could of \ncourse"));
    assert!(!can("he \nmight of"));
    assert!(!can("he might of \ncourse"));
    assert!(can("could\nof"));
    assert!(can("could   of"));
    assert!(can("could \n of"), "five tokens");
    assert!(can("could \n \n of"), "seven tokens");
    assert!(!can("could \n \n \n of"));
    assert!(can("could \noff"));
    assert!(can("could, \nof"));
    assert!(can("he, \nmight of"));
    assert!(can("he \nmight \nof"), "seven tokens");
    assert!(can("he might of might \n of"), "the second begins where the first ends");
}

fn texts_that_cannot_be_linted_have_no_issues() {
    let mut checker = SpellChecker::new();
    for text in [
        "of curse teh cat",
        "Of corse",
        "teh cat could \nof",
        "teh cat couldn\u{2019}t \nof",
        "teh cat could of \ncourse",
        "teh \nmight of",
    ] {
        assert!(checker.check(text).is_empty(), "{text:?}");
    }
}

fn texts_close_to_those_are_linted() {
    let mut checker = SpellChecker::new();
    for text in [
        "teh cat, of curse",
        "teh cat could\nof gone",
        "teh cat could \n of gone",
        "teh cat could \tof gone",
        "teh cat could   of gone, of course",
        "teh cat could \n\nof gone",
        "teh cat might of \n gone",
        "teh \n might, of",
        "he, \nmight of teh",
        "of\n\ncurse teh",
    ] {
        let issues = checker.check(text);
        assert!(words(&issues).contains(&"teh"), "{text:?}: {issues:?}");
    }
}

fn long_runs_are_linted() {
    let mut checker = SpellChecker::new();
    for run in [
        ".".repeat(255),
        "1".repeat(300),
        format!("https://example.com/{}", "a".repeat(400)),
        "\u{4e2d}\u{6587}".repeat(300),
        "a.".repeat(200),
        "'".repeat(300),
    ] {
        let issues = checker.check(&format!("teh {run}"));
        assert!(words(&issues).contains(&"teh"), "{run}: {issues:?}");
    }
}

fn a_long_word_is_linted() {
    let text = format!("teh {}", "abcdefghij".repeat(30));
    let issues = SpellChecker::new().check(&text);
    assert!(words(&issues).contains(&"teh"));
}

#[test]
fn linter_is_run_where_it_can_be() {
    texts_that_cannot_be_linted_have_no_issues();
    texts_close_to_those_are_linted();
    long_runs_are_linted();
    a_long_word_is_linted();
}
