use harper_core::linting::LintKind;
use tuipo::spell::{is_actionable_category, looks_like_code, IssueCategory, SpellChecker, SpellIssue};

fn check(text: &str) -> Vec<SpellIssue> {
    SpellChecker::new().check(text)
}

#[test]
fn empty_text_has_no_issues() {
    assert!(check("").is_empty());
    assert!(check("   ").is_empty());
}

#[test]
fn clean_text_has_no_spelling_issues() {
    let issues = check("Hello world.");
    let spelling: Vec<_> = issues
        .iter()
        .filter(|i| i.category == IssueCategory::Spelling)
        .collect();
    assert!(spelling.is_empty(), "unexpected spelling issues: {spelling:?}");
}

#[test]
fn byte_offsets_locate_misspelling_correctly() {
    let text = "hello teh cat";
    let issues = check(text);
    let teh = issues
        .iter()
        .find(|i| i.word.eq_ignore_ascii_case("teh"))
        .expect("teh not flagged");
    assert_eq!(&text[teh.byte_start..teh.byte_end], "teh");
}

#[test]
fn byte_offsets_correct_with_leading_multibyte() {
    // 'café' is 5 bytes (4 chars). The misspelling 'teh' starts at byte 6.
    let text = "café teh cat";
    let issues = check(text);
    let teh = issues
        .iter()
        .find(|i| i.word.eq_ignore_ascii_case("teh"))
        .expect("teh not flagged");
    assert_eq!(&text[teh.byte_start..teh.byte_end], "teh");
}

#[test]
fn byte_offsets_correct_with_emoji() {
    // '🦀' is 4 bytes (1 char).
    let text = "🦀 teh cat";
    let issues = check(text);
    let teh = issues
        .iter()
        .find(|i| i.word.eq_ignore_ascii_case("teh"))
        .expect("teh not flagged");
    assert_eq!(&text[teh.byte_start..teh.byte_end], "teh");
}

#[test]
fn snake_case_is_skipped() {
    // `mispelled_variable` is misspelled in prose terms but is code.
    let issues = check("the mispelled_variable is here");
    assert!(
        !issues.iter().any(|i| i.word.contains('_')),
        "snake_case got flagged: {issues:?}",
    );
}

#[test]
fn camel_case_is_skipped() {
    let issues = check("call useState here");
    assert!(
        !issues.iter().any(|i| i.word == "useState"),
        "camelCase got flagged: {issues:?}",
    );
}

#[test]
fn all_caps_is_skipped() {
    let issues = check("set the API_KEY value");
    assert!(
        !issues
            .iter()
            .any(|i| i.word == "API" || i.word == "API_KEY"),
        "ALLCAPS got flagged: {issues:?}",
    );
}

#[test]
fn paths_are_skipped() {
    let issues = check("open src/main.rs to edit");
    assert!(
        !issues.iter().any(|i| i.word.contains('/')),
        "path got flagged: {issues:?}",
    );
}

#[test]
fn flags_are_skipped() {
    let issues = check("pass --max-tokens to the call");
    assert!(
        !issues.iter().any(|i| i.word.starts_with('-')),
        "flag got flagged: {issues:?}",
    );
}

#[test]
fn version_like_tokens_are_skipped() {
    let issues = check("install rust 1.93 now");
    assert!(
        !issues.iter().any(|i| i.word.chars().any(|c| c.is_ascii_digit())),
        "version-like token got flagged: {issues:?}",
    );
}

#[test]
fn backtick_wrapped_is_skipped() {
    let issues = check("the `mispelt` identifier");
    assert!(
        !issues.iter().any(|i| i.word == "mispelt"),
        "backtick-wrapped got flagged: {issues:?}",
    );
}

#[test]
fn real_sentence_only_flags_actual_misspellings_as_spelling() {
    let text = "write the reason for the peple of US India";
    let issues = check(text);
    let all: Vec<String> = issues
        .iter()
        .map(|i| format!("{}:{:?}", i.word, i.category))
        .collect();
    let spelling_words: Vec<String> = issues
        .iter()
        .filter(|i| i.category == IssueCategory::Spelling)
        .map(|i| i.word.to_lowercase())
        .collect();
    let common = ["write", "the", "reason", "for", "of", "us", "india"];
    for w in common {
        assert!(
            !spelling_words.iter().any(|s| s == w),
            "common word `{w}` got flagged as Spelling. All lints: {all:?}",
        );
    }
}

#[test]
fn multiple_misspellings_all_reported() {
    let issues = check("teh quikc brown fox jumpd over");
    let spelling_words: Vec<&str> = issues
        .iter()
        .filter(|i| i.category == IssueCategory::Spelling)
        .map(|i| i.word.as_str())
        .collect();
    // At least 'teh' and one of 'quikc'/'jumpd' must show up.
    assert!(
        spelling_words.contains(&"teh"),
        "expected teh in: {spelling_words:?}",
    );
}

#[test]
fn looks_like_code_multi_token_skips_when_any_token_is_code() {
    // Multi-token span containing an ALL_CAPS acronym (`API`) should
    // be treated as code-adjacent and skipped. Same for spans
    // containing CamelCase or paths.
    assert!(looks_like_code("the API is", "the API is broken", 0, 10));
    assert!(looks_like_code("useState should", "useState should not", 0, 15));
    assert!(looks_like_code("src/main.rs is", "src/main.rs is open", 0, 14));
}

#[test]
fn looks_like_code_multi_token_passes_clean_prose() {
    // No code-shaped token anywhere → don't skip. This is what makes
    // grammar lints reach the painter on real prose.
    assert!(!looks_like_code("the cat is", "the cat is here", 0, 10));
    assert!(!looks_like_code("there are two", "there are two reasons", 0, 13));
}

#[test]
fn issue_category_from_kind_narrow_grammar_whitelist() {
    assert_eq!(IssueCategory::from_kind(LintKind::Spelling), IssueCategory::Spelling);
    assert_eq!(IssueCategory::from_kind(LintKind::Typo), IssueCategory::Spelling);
    assert_eq!(IssueCategory::from_kind(LintKind::Agreement), IssueCategory::Grammar);
    assert_eq!(IssueCategory::from_kind(LintKind::Malapropism), IssueCategory::Grammar);
    assert_eq!(IssueCategory::from_kind(LintKind::Eggcorn), IssueCategory::Grammar);
    assert_eq!(IssueCategory::from_kind(LintKind::Nonstandard), IssueCategory::Grammar);
    assert_eq!(IssueCategory::from_kind(LintKind::Usage), IssueCategory::Grammar);
    assert_eq!(IssueCategory::from_kind(LintKind::Grammar), IssueCategory::Other);
    assert_eq!(IssueCategory::from_kind(LintKind::Punctuation), IssueCategory::Other);
    assert_eq!(IssueCategory::from_kind(LintKind::Capitalization), IssueCategory::Other);
    assert_eq!(IssueCategory::from_kind(LintKind::BoundaryError), IssueCategory::Other);
    assert_eq!(IssueCategory::from_kind(LintKind::Style), IssueCategory::Style);
    assert_eq!(IssueCategory::from_kind(LintKind::Repetition), IssueCategory::Style);
}

#[test]
fn nonstandard_idiom_lands_in_grammar_category() {
    // "for all intensive purposes" → "for all intents and purposes"
    // is a fixed-phrase idiom harper tags as LintKind::Nonstandard.
    // It must reach IssueCategory::Grammar so `grammar = true`
    // surfaces it (the broken-idiom slice of Grammarly-for-terminal).
    let issues = check("we need it for all intensive purposes here");
    let grammar_lints: Vec<&SpellIssue> = issues
        .iter()
        .filter(|i| i.category == IssueCategory::Grammar)
        .collect();
    assert!(
        !grammar_lints.is_empty(),
        "expected the idiom to land in Grammar; got: {:?}",
        issues
            .iter()
            .map(|i| (i.word.clone(), i.category))
            .collect::<Vec<_>>(),
    );
}

#[test]
fn is_actionable_category_predicate() {
    // Spelling is always paintable regardless of the grammar flag.
    assert!(is_actionable_category(IssueCategory::Spelling, false));
    assert!(is_actionable_category(IssueCategory::Spelling, true));
    // Grammar follows the flag.
    assert!(!is_actionable_category(IssueCategory::Grammar, false));
    assert!(is_actionable_category(IssueCategory::Grammar, true));
    // Style and Other are never paintable today.
    assert!(!is_actionable_category(IssueCategory::Style, true));
    assert!(!is_actionable_category(IssueCategory::Other, true));
}

#[test]
fn span_extraction_matches_word() {
    // Verify every issue's [byte_start..byte_end] slice equals its `word`.
    let text = "teh café 🦀 ones quikc";
    let issues = check(text);
    for issue in &issues {
        let slice = &text[issue.byte_start..issue.byte_end];
        assert_eq!(
            slice, issue.word,
            "byte slice {slice:?} did not match word {:?}",
            issue.word
        );
    }
}

#[test]
fn words_among_others_in_a_backtick_span_are_skipped() {
    let text = "run `mispelt teh command` now, teh end";
    let issues = check(text);
    let found: Vec<_> = issues.iter().filter(|i| i.word == "teh").collect();
    assert!(!found.is_empty(), "{issues:?}");
    assert!(found.iter().all(|i| i.char_start == 31), "{issues:?}");
    assert!(issues.iter().all(|i| i.word != "mispelt"));
}

#[test]
fn backticks_open_and_close_spans_in_turn() {
    let text = "a `b teh` teh `c";
    assert!(looks_like_code("teh", text, 5, 8));
    assert!(!looks_like_code("teh", text, 10, 13));
    assert!(!looks_like_code("c", text, 15, 16), "nothing closes the last span");
    assert!(!looks_like_code("teh` teh", text, 5, 13), "the span ends in between");
    assert!(looks_like_code("teh", "`teh`", 1, 4));
    assert!(looks_like_code("teh", "```\nteh\n```", 4, 7));
}
