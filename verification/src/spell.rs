//! Spelling and grammar engine over `harper-core`.
//!
//! Runs the linter, converts its character spans to byte offsets, drops what
//! is shaped like code or listed in the custom dictionary, and sorts the
//! linter's kinds into four categories.

use crate::dict::{entries, lowercase, CustomDict, DEFAULT_DICT_TEXT};
use crate::lintable::{can_lint, is_lintable, TextToken};
use crate::text::{byte_len, byte_len_take, chars_of, encode_utf8_concat, is_white_space};
use crate::text::{string_of, utf8_width};
use harper_core::linting::{LintGroup, LintKind, Linter, Suggestion};
use harper_core::parsers::PlainEnglish;
use harper_core::spell::FstDictionary;
use harper_core::{Dialect, Document};
use vstd::prelude::*;
use vstd::utf8::encode_utf8;

verus! {

#[derive(Debug, Clone, Copy, PartialEq, Eq, Hash, Structural)]
pub enum IssueCategory {
    Spelling,
    Grammar,
    Style,
    Other,
}

/// The linter's kinds of findings.
#[verifier::external_type_specification]
pub struct ExLintKind(LintKind);

/// The linter's suggested edits.
#[verifier::external_type_specification]
pub struct ExSuggestion(Suggestion);

impl IssueCategory {
    /// The category of a linter kind. `Grammar` holds the five kinds with few
    /// false alarms; the broad ones stay in `Other`.
    pub open spec fn of_kind(kind: LintKind) -> IssueCategory {
        match kind {
            LintKind::Spelling | LintKind::Typo => IssueCategory::Spelling,
            LintKind::Agreement
            | LintKind::Malapropism
            | LintKind::Eggcorn
            | LintKind::Nonstandard
            | LintKind::Usage => IssueCategory::Grammar,
            LintKind::Style
            | LintKind::WordChoice
            | LintKind::Enhancement
            | LintKind::Readability
            | LintKind::Redundancy
            | LintKind::Repetition => IssueCategory::Style,
            _ => IssueCategory::Other,
        }
    }

    pub fn from_kind(kind: LintKind) -> (r: Self)
        ensures
            r == IssueCategory::of_kind(kind),
    {
        match kind {
            LintKind::Spelling | LintKind::Typo => IssueCategory::Spelling,
            LintKind::Agreement
            | LintKind::Malapropism
            | LintKind::Eggcorn
            | LintKind::Nonstandard
            | LintKind::Usage => IssueCategory::Grammar,
            LintKind::Style
            | LintKind::WordChoice
            | LintKind::Enhancement
            | LintKind::Readability
            | LintKind::Redundancy
            | LintKind::Repetition => IssueCategory::Style,
            _ => IssueCategory::Other,
        }
    }
}

/// Whether an issue of this category is shown: spelling always, grammar where
/// the user turned it on, nothing else.
pub open spec fn actionable(category: IssueCategory, grammar_enabled: bool) -> bool {
    category == IssueCategory::Spelling || (category == IssueCategory::Grammar && grammar_enabled)
}

/// One predicate shared by the painter, the picker and the fixer.
pub fn is_actionable_category(category: IssueCategory, grammar_enabled: bool) -> (r: bool)
    ensures
        r == actionable(category, grammar_enabled),
{
    match category {
        IssueCategory::Spelling => true,
        IssueCategory::Grammar => grammar_enabled,
        IssueCategory::Style | IssueCategory::Other => false,
    }
}

/// A finding as the rest of the program sees it, with byte offsets for work
/// on the buffer and character offsets for work on the screen.
#[derive(Debug)]
pub struct SpellIssue {
    pub byte_start: usize,
    pub byte_end: usize,
    pub char_start: usize,
    pub char_end: usize,
    pub word: String,
    pub message: String,
    pub suggestions: Vec<String>,
    pub category: IssueCategory,
    /// Lower is more important, as the linter has it.
    pub priority: u8,
}

/// What a `SpellIssue` holds.
#[verifier::ext_equal]
pub struct IssueView {
    pub byte_start: int,
    pub byte_end: int,
    pub char_start: int,
    pub char_end: int,
    pub word: Seq<char>,
    pub message: Seq<char>,
    pub suggestions: Seq<Seq<char>>,
    pub category: IssueCategory,
    pub priority: u8,
}

/// The texts of a list of strings.
pub open spec fn texts(strings: Seq<String>) -> Seq<Seq<char>> {
    strings.map_values(|s: String| s@)
}

impl View for SpellIssue {
    type V = IssueView;

    open spec fn view(&self) -> IssueView {
        IssueView {
            byte_start: self.byte_start as int,
            byte_end: self.byte_end as int,
            char_start: self.char_start as int,
            char_end: self.char_end as int,
            word: self.word@,
            message: self.message@,
            suggestions: texts(self.suggestions@),
            category: self.category,
            priority: self.priority,
        }
    }
}

/// What a list of issues holds.
pub open spec fn issues_view(issues: Seq<SpellIssue>) -> Seq<IssueView> {
    issues.map_values(|i: SpellIssue| i@)
}

/// A copy of a list of strings.
pub fn clone_strings(strings: &Vec<String>) -> (r: Vec<String>)
    ensures
        texts(r@) == texts(strings@),
{
    let mut r: Vec<String> = Vec::new();
    let mut i: usize = 0;
    while i < strings.len()
        invariant
            i <= strings@.len(),
            texts(r@) =~= texts(strings@).take(i as int),
        decreases strings@.len() - i,
    {
        let ghost before = r@;
        r.push(strings[i].clone());
        i += 1;
        proof {
            assert(texts(r@) =~= texts(before).push(strings@[i - 1]@));
        }
    }
    proof {
        assert(texts(strings@).take(i as int) =~= texts(strings@));
    }
    r
}

impl Clone for SpellIssue {
    fn clone(&self) -> (r: Self)
        ensures
            r@ == self@,
    {
        SpellIssue {
            byte_start: self.byte_start,
            byte_end: self.byte_end,
            char_start: self.char_start,
            char_end: self.char_end,
            word: self.word.clone(),
            message: self.message.clone(),
            suggestions: clone_strings(&self.suggestions),
            category: self.category,
            priority: self.priority,
        }
    }
}

/// A copy of a list of issues.
pub fn clone_issues(issues: &[SpellIssue]) -> (r: Vec<SpellIssue>)
    ensures
        issues_view(r@) == issues_view(issues@),
{
    let mut r: Vec<SpellIssue> = Vec::new();
    let mut i: usize = 0;
    while i < issues.len()
        invariant
            i <= issues@.len(),
            issues_view(r@) =~= issues_view(issues@).take(i as int),
        decreases issues@.len() - i,
    {
        let ghost before = r@;
        r.push(issues[i].clone());
        i += 1;
        proof {
            assert(issues_view(r@) =~= issues_view(before).push(issues@[i - 1]@));
        }
    }
    proof {
        assert(issues_view(issues@).take(i as int) =~= issues_view(issues@));
    }
    r
}

/// A finding as the linter reports it: a span in characters, its kind, the
/// suggested edits and a message.
#[derive(Debug)]
pub struct RawLint {
    pub start: usize,
    pub end: usize,
    pub kind: LintKind,
    pub suggestions: Vec<Suggestion>,
    pub message: String,
    pub priority: u8,
}

/// What a `RawLint` holds. Of each suggested edit only the text that it
/// brings in matters, and a removal brings in none.
#[verifier::ext_equal]
pub struct RawLintView {
    pub start: int,
    pub end: int,
    pub kind: LintKind,
    pub suggestions: Seq<Option<Seq<char>>>,
    pub message: Seq<char>,
    pub priority: u8,
}

/// The text that a suggested edit brings in.
pub open spec fn replacement(s: Suggestion) -> Option<Seq<char>> {
    match s {
        Suggestion::ReplaceWith(chars) => Some(chars@),
        Suggestion::InsertAfter(chars) => Some(chars@),
        Suggestion::Remove => None,
    }
}

impl View for RawLint {
    type V = RawLintView;

    open spec fn view(&self) -> RawLintView {
        RawLintView {
            start: self.start as int,
            end: self.end as int,
            kind: self.kind,
            suggestions: self.suggestions@.map_values(|s: Suggestion| replacement(s)),
            message: self.message@,
            priority: self.priority,
        }
    }
}

/// What a list of findings holds.
pub open spec fn lints_view(lints: Seq<RawLint>) -> Seq<RawLintView> {
    lints.map_values(|l: RawLint| l@)
}

/// The linter, opaque here.
#[verifier::external_type_specification]
#[verifier::external_body]
pub struct ExLintGroup(LintGroup);

/// A parsed text, opaque here.
#[verifier::external_type_specification]
#[verifier::external_body]
pub struct ExDocument(Document);

/// The text that a document was parsed from.
pub uninterp spec fn document_text(document: Document) -> Seq<char>;

/// The tokens that a document was parsed into.
pub uninterp spec fn document_tokens(document: Document) -> Seq<TextToken>;

/// The tokens of a text as plain English.
pub uninterp spec fn plain_tokens(text: Seq<char>) -> Seq<TextToken>;

/// Whether `lints` is a list of findings that the linter may return for a
/// document of `text`.
pub uninterp spec fn may_report(text: Seq<char>, lints: Seq<RawLintView>) -> bool;

/// `harper_core::linting::LintGroup::new_curated` builds the stock American
/// English rule set over `harper_core::spell::FstDictionary::curated`, the
/// stock dictionary. Nothing is claimed of the rules.
#[verifier::external_body]
fn curated_linter() -> (r: LintGroup) {
    LintGroup::new_curated(FstDictionary::curated(), Dialect::American)
}

/// `harper_core::Document::new_curated` parses a text as plain English and
/// keeps that text as the document's source. The tokens depend on nothing but
/// the text; nothing else is claimed of them.
#[verifier::external_body]
fn plain_document(text: &str) -> (r: Document)
    ensures
        document_text(r) == text@,
        document_tokens(r) == plain_tokens(text@),
{
    Document::new_curated(text, &PlainEnglish)
}

/// `harper_core::Document::get_tokens` hands out the tokens of a document in
/// order. Each is copied as its span and as what its kind says of being a word
/// or whitespace.
#[verifier::external_body]
fn tokens_of(document: &Document) -> (r: Vec<TextToken>)
    ensures
        r@ == document_tokens(*document),
{
    let tokens = document.get_tokens().iter();
    tokens.map(|t| TextToken {
        start: t.span.start,
        end: t.span.end,
        word: t.kind.is_word(),
        blank: t.kind.is_whitespace(),
    }).collect()
}

/// `harper_core::linting::Linter::lint` on the rule set. The findings are
/// copied field by field. Which findings come also depends on what the linter
/// cached in earlier calls, so they are tied to the text by a relation and
/// not by a function; nothing else is claimed of them. On some documents one of
/// two rules panics: those are left out.
#[verifier::external_body]
fn lint_document(linter: &mut LintGroup, document: &Document) -> (r: Vec<RawLint>)
    requires
        is_lintable(document_text(*document), document_tokens(*document)),
    ensures
        may_report(document_text(*document), lints_view(r@)),
{
    let lints = linter.lint(document).into_iter();
    lints.map(|l| RawLint {
        start: l.span.start,
        end: l.span.end,
        kind: l.lint_kind,
        suggestions: l.suggestions,
        message: l.message,
        priority: l.priority,
    }).collect()
}

/// Whether a character has Unicode's `Alphabetic` property.
pub uninterp spec fn is_alphabetic(c: char) -> bool;

/// `char::is_alphabetic` tests for Unicode's `Alphabetic` property; among the
/// ASCII characters the letters have it.
pub assume_specification[ char::is_alphabetic ](c: char) -> (r: bool)
    ensures
        r == is_alphabetic(c),
        c as u32 <= 0x7F ==> r == (is_upper(c) || is_lower(c)),
;

pub open spec fn is_upper(c: char) -> bool {
    'A' <= c <= 'Z'
}

pub open spec fn is_lower(c: char) -> bool {
    'a' <= c <= 'z'
}

pub open spec fn is_digit(c: char) -> bool {
    '0' <= c <= '9'
}

/// Punctuation that prose words do not hold but identifiers, paths and
/// addresses do.
pub open spec fn is_code_symbol(c: char) -> bool {
    c == '/' || c == '\\' || c == '_' || c == '@' || c == '#' || c == '$' || c == ':'
}

/// Whether the first dot of `word` is neither its first nor its last
/// character.
pub open spec fn has_inner_dot(word: Seq<char>) -> bool {
    exists|i: int|
        #![trigger word[i]]
        0 < i < word.len() - 1 && word[i] == '.' && forall|j: int| 0 <= j < i ==> word[j] != '.'
}

/// Whether one token is shaped like code: an identifier, path, address, flag,
/// version, file name, acronym or camel-case name.
pub open spec fn is_code_token(word: Seq<char>) -> bool {
    ||| word.len() == 0
    ||| exists|i: int| 0 <= i < word.len() && is_code_symbol(#[trigger] word[i])
    ||| word[0] == '-'
    ||| {
        &&& exists|i: int| 0 <= i < word.len() && is_alphabetic(#[trigger] word[i])
        &&& exists|i: int| 0 <= i < word.len() && is_digit(#[trigger] word[i])
    }
    ||| has_inner_dot(word)
    ||| word.len() >= 2 && forall|i: int| 0 <= i < word.len() ==> is_upper(#[trigger] word[i])
    ||| exists|i: int|
        0 < i < word.len() && is_lower(word[i - 1]) && is_upper(#[trigger] word[i])
}

/// Whether `from..to` is a maximal run of characters that are no whitespace.
pub open spec fn is_token(s: Seq<char>, from: int, to: int) -> bool {
    &&& 0 <= from < to <= s.len()
    &&& from == 0 || is_white_space(s[from - 1])
    &&& to == s.len() || is_white_space(s[to])
    &&& forall|i: int| from <= i < to ==> !is_white_space(#[trigger] s[i])
}

/// The number of backticks before `at`.
pub open spec fn backticks_before(text: Seq<char>, at: int) -> nat
    decreases at,
{
    if at <= 0 || at > text.len() {
        0
    } else {
        backticks_before(text, at - 1) + if text[at - 1] == '`' {
            1nat
        } else {
            0nat
        }
    }
}

/// Whether the characters around `start..end` are both backticks.
pub open spec fn is_enclosed(text: Seq<char>, start: int, end: int) -> bool {
    &&& 0 < start <= text.len()
    &&& 0 <= end < text.len()
    &&& text[start - 1] == '`'
    &&& text[end] == '`'
}

/// Whether `start..end` lies between a backtick that opens a span and the one
/// that closes it. Backticks open and close spans in turn.
pub open spec fn is_in_backtick_span(text: Seq<char>, start: int, end: int) -> bool {
    &&& 0 <= start <= end <= text.len()
    &&& backticks_before(text, start) % 2 == 1
    &&& backticks_before(text, end) == backticks_before(text, start)
    &&& backticks_before(text, text.len() as int) > backticks_before(text, end)
}

/// Whether `start..end` stands in backticks, alone or among other words.
pub open spec fn is_backticked(text: Seq<char>, start: int, end: int) -> bool {
    is_enclosed(text, start, end) || is_in_backtick_span(text, start, end)
}

/// Whether a span of prose is shaped like code: it is empty, stands in
/// backticks, or has a token that is shaped like code.
pub open spec fn is_code(word: Seq<char>, text: Seq<char>, start: int, end: int) -> bool {
    ||| word.len() == 0
    ||| is_backticked(text, start, end)
    ||| exists|from: int, to: int| #[trigger]
        is_token(word, from, to) && is_code_token(word.subrange(from, to))
}

fn is_code_char(c: char) -> (r: bool)
    ensures
        r == is_code_symbol(c),
{
    c == '/' || c == '\\' || c == '_' || c == '@' || c == '#' || c == '$' || c == ':'
}

/// Shape check of one token.
pub fn looks_like_code_token(word: &[char]) -> (r: bool)
    ensures
        r == is_code_token(word@),
{
    let n: usize = word.len();
    if n == 0 {
        return true;
    }
    let mut has_letter = false;
    let mut has_digit = false;
    let mut all_caps = true;
    let mut camel = false;
    let mut symbol = false;
    let mut first_dot: Option<usize> = None;
    let mut i: usize = 0;
    while i < n
        invariant
            n == word@.len(),
            i <= n,
            symbol == exists|j: int| 0 <= j < i && is_code_symbol(#[trigger] word@[j]),
            has_letter == exists|j: int| 0 <= j < i && is_alphabetic(#[trigger] word@[j]),
            has_digit == exists|j: int| 0 <= j < i && is_digit(#[trigger] word@[j]),
            all_caps == forall|j: int| 0 <= j < i ==> is_upper(#[trigger] word@[j]),
            camel == exists|j: int|
                0 < j < i && is_lower(word@[j - 1]) && is_upper(#[trigger] word@[j]),
            match first_dot {
                Some(d) => d < i && word@[d as int] == '.' && forall|j: int|
                    0 <= j < d ==> word@[j] != '.',
                None => forall|j: int| 0 <= j < i ==> word@[j] != '.',
            },
        decreases n - i,
    {
        let c = word[i];
        let upper = 'A' <= c && c <= 'Z';
        if is_code_char(c) {
            symbol = true;
        }
        if c.is_alphabetic() {
            has_letter = true;
        }
        if '0' <= c && c <= '9' {
            has_digit = true;
        }
        if !upper {
            all_caps = false;
        } else if i > 0 {
            let p = word[i - 1];
            if 'a' <= p && p <= 'z' {
                camel = true;
            }
        }
        if c == '.' && first_dot.is_none() {
            first_dot = Some(i);
        }
        proof {
            assert(word@[i as int] == c);
        }
        i += 1;
    }
    let inner_dot = match first_dot {
        Some(d) => d > 0 && d + 1 < n,
        None => false,
    };
    symbol || word[0] == '-' || (has_letter && has_digit) || inner_dot || (n >= 2 && all_caps)
        || camel
}

/// Shape check of a whole span. It may hold several tokens, as grammar
/// findings do; one that is shaped like code is enough. `char_start` and
/// `char_end` say where the span stands in `full_text`.
pub fn looks_like_code(word: &str, full_text: &str, char_start: usize, char_end: usize) -> (r: bool)
    ensures
        r == is_code(word@, full_text@, char_start as int, char_end as int),
{
    let chars = chars_of(word);
    let text = chars_of(full_text);
    span_is_code(chars.as_slice(), text.as_slice(), char_start, char_end)
}

fn count_backticks(text: &[char], at: usize) -> (r: usize)
    requires
        at <= text@.len(),
    ensures
        r == backticks_before(text@, at as int),
{
    let mut count: usize = 0;
    let mut i: usize = 0;
    while i < at
        invariant
            i <= at <= text@.len(),
            count <= i,
            count == backticks_before(text@, i as int),
        decreases at - i,
    {
        if text[i] == '`' {
            count += 1;
        }
        i += 1;
    }
    count
}

fn span_is_backticked(text: &[char], start: usize, end: usize) -> (r: bool)
    ensures
        r == is_backticked(text@, start as int, end as int),
{
    let n: usize = text.len();
    if start > 0 && start <= n && end < n && text[start - 1] == '`' && text[end] == '`' {
        return true;
    }
    if start > end || end > n {
        return false;
    }
    let before: usize = count_backticks(text, start);
    before % 2 == 1 && count_backticks(text, end) == before && count_backticks(text, n) > before
}

fn span_is_code(word: &[char], text: &[char], start: usize, end: usize) -> (r: bool)
    ensures
        r == is_code(word@, text@, start as int, end as int),
{
    let n: usize = word.len();
    if n == 0 {
        return true;
    }
    if span_is_backticked(text, start, end) {
        return true;
    }
    let mut from: usize = 0;
    while from < n
        invariant
            n == word@.len(),
            from <= n,
            from == 0 || from == n || is_white_space(word@[from - 1]),
            !is_backticked(text@, start as int, end as int),
            forall|a: int, b: int| #[trigger]
                is_token(word@, a, b) && a < from ==> !is_code_token(word@.subrange(a, b)),
        decreases n - from,
    {
        if word[from].is_whitespace() {
            from += 1;
            continue;
        }
        let mut to: usize = from;
        while to < n && !word[to].is_whitespace()
            invariant
                n == word@.len(),
                from <= to <= n,
                forall|i: int| from <= i < to ==> !is_white_space(#[trigger] word@[i]),
                to > from || !is_white_space(word@[from as int]),
            decreases n - to,
        {
            to += 1;
        }
        proof {
            assert(is_token(word@, from as int, to as int));
            assert forall|a: int, b: int| #[trigger]
                is_token(word@, a, b) && from <= a < to implies a == from && b == to by {
                if a > from {
                    assert(!is_white_space(word@[a - 1]));
                }
                if b < to {
                    assert(!is_white_space(word@[b]));
                } else if b > to {
                    assert(!is_white_space(word@[to as int]));
                }
            }
        }
        if looks_like_code_token(vstd::slice::slice_subrange(word, from, to)) {
            return true;
        }
        if to < n {
            to += 1;
        }
        from = to;
        proof {
            assert forall|a: int, b: int| #[trigger]
                is_token(word@, a, b) && a < from implies !is_code_token(word@.subrange(a, b)) by {
                if a == from - 1 && is_white_space(word@[a]) {
                    assert(!is_white_space(word@[a]));
                }
            }
        }
    }
    false
}

/// The texts of those suggested edits that bring one in.
pub open spec fn replacements(suggestions: Seq<Option<Seq<char>>>) -> Seq<Seq<char>>
    decreases suggestions.len(),
{
    if suggestions.len() == 0 {
        Seq::empty()
    } else {
        let before = replacements(suggestions.drop_last());
        match suggestions.last() {
            Some(text) => before.push(text),
            None => before,
        }
    }
}

fn suggestion_replacement(s: &Suggestion) -> (r: Option<String>)
    ensures
        replacement(*s) == match r {
            Some(text) => Some(text@),
            None => None,
        },
{
    match s {
        Suggestion::ReplaceWith(chars) => Some(string_of(chars.as_slice())),
        Suggestion::InsertAfter(chars) => Some(string_of(chars.as_slice())),
        Suggestion::Remove => None,
    }
}

fn replacement_texts(suggestions: &Vec<Suggestion>) -> (r: Vec<String>)
    ensures
        texts(r@) == replacements(suggestions@.map_values(|s: Suggestion| replacement(s))),
{
    let ghost all = suggestions@.map_values(|s: Suggestion| replacement(s));
    let mut r: Vec<String> = Vec::new();
    let mut i: usize = 0;
    proof {
        assert(texts(r@) =~= replacements(all.take(0)));
    }
    while i < suggestions.len()
        invariant
            all == suggestions@.map_values(|s: Suggestion| replacement(s)),
            i <= suggestions@.len(),
            texts(r@) == replacements(all.take(i as int)),
        decreases suggestions@.len() - i,
    {
        let ghost before = r@;
        if let Some(text) = suggestion_replacement(&suggestions[i]) {
            r.push(text);
            proof {
                assert(texts(r@) =~= texts(before).push(text@));
            }
        }
        i += 1;
        proof {
            assert(all.take(i as int).drop_last() =~= all.take(i - 1));
        }
    }
    proof {
        assert(all.take(i as int) =~= all);
    }
    r
}

/// The characters of a span; none where the span is no range of the text.
pub open spec fn span_text(text: Seq<char>, start: int, end: int) -> Seq<char> {
    if 0 <= start <= end <= text.len() {
        text.subrange(start, end)
    } else {
        Seq::empty()
    }
}

/// The issue that a finding becomes: none where the span does not lie in the
/// text, is shaped like code, or is a word of the dictionary.
pub open spec fn issue_of(lint: RawLintView, text: Seq<char>, dict: Set<Seq<char>>) -> Option<
    IssueView,
> {
    let word = span_text(text, lint.start, lint.end);
    if lint.start > text.len() || lint.end > text.len() {
        None
    } else if is_code(word, text, lint.start, lint.end) || dict.contains(lowercase(word)) {
        None
    } else {
        Some(
            IssueView {
                byte_start: byte_len(text.take(lint.start)) as int,
                byte_end: byte_len(text.take(lint.end)) as int,
                char_start: lint.start,
                char_end: lint.end,
                word,
                message: lint.message,
                suggestions: replacements(lint.suggestions),
                category: IssueCategory::of_kind(lint.kind),
                priority: lint.priority,
            },
        )
    }
}

/// The issues that a list of findings becomes, in order.
pub open spec fn issues_of(
    lints: Seq<RawLintView>,
    text: Seq<char>,
    dict: Set<Seq<char>>,
) -> Seq<IssueView>
    decreases lints.len(),
{
    if lints.len() == 0 {
        Seq::empty()
    } else {
        let before = issues_of(lints.drop_last(), text, dict);
        match issue_of(lints.last(), text, dict) {
            Some(issue) => before.push(issue),
            None => before,
        }
    }
}

/// Whether a text has nothing but whitespace.
pub open spec fn is_blank(text: Seq<char>) -> bool {
    forall|i: int| 0 <= i < text.len() ==> is_white_space(#[trigger] text[i])
}

/// Whether `issues` can come of a check of `text`: none for a blank text or one
/// that the linter cannot be run on, else what some list of findings that the
/// linter may report becomes.
pub open spec fn possible_issues(
    text: Seq<char>,
    dict: Set<Seq<char>>,
    issues: Seq<IssueView>,
) -> bool {
    if is_blank(text) || !is_lintable(text, plain_tokens(text)) {
        issues.len() == 0
    } else {
        exists|lints: Seq<RawLintView>| #[trigger]
            may_report(text, lints) && issues == issues_of(lints, text, dict)
    }
}

/// Byte offset of every character of `chars`, and of its end.
fn byte_offsets(chars: &Vec<char>, text: &str) -> (r: Vec<usize>)
    requires
        chars@ == text@,
    ensures
        r@.len() == chars@.len() + 1,
        forall|i: int| 0 <= i <= chars@.len() ==> r@[i] == byte_len(#[trigger] chars@.take(i)),
{
    let total: usize = text.as_bytes().len();
    let mut r: Vec<usize> = Vec::new();
    let mut offset: usize = 0;
    let mut i: usize = 0;
    proof {
        assert(chars@.take(0) =~= Seq::<char>::empty());
        assert(encode_utf8(chars@.take(0)) =~= Seq::<u8>::empty());
    }
    while i < chars.len()
        invariant
            i <= chars@.len(),
            total == byte_len(chars@),
            offset == byte_len(chars@.take(i as int)),
            r@.len() == i,
            forall|j: int| 0 <= j < i ==> r@[j] == byte_len(#[trigger] chars@.take(j)),
        decreases chars@.len() - i,
    {
        r.push(offset);
        proof {
            byte_len_take(chars@, i as int, i + 1);
            assert(chars@.subrange(i as int, i + 1) =~= seq![chars@[i as int]]);
        }
        offset = offset + utf8_width(chars[i]);
        i += 1;
    }
    r.push(offset);
    r
}

/// The issues for what the linter reported on `text`.
pub fn issues_from_lints(lints: &Vec<RawLint>, text: &str, custom: &CustomDict) -> (r: Vec<
    SpellIssue,
>)
    ensures
        issues_view(r@) == issues_of(lints_view(lints@), text@, custom@),
        all_sound(issues_view(r@), text@, custom@),
{
    let chars = chars_of(text);
    let offsets = byte_offsets(&chars, text);
    let n: usize = chars.len();
    let ghost all = lints_view(lints@);
    let mut r: Vec<SpellIssue> = Vec::new();
    let mut i: usize = 0;
    proof {
        assert(issues_view(r@) =~= issues_of(all.take(0), text@, custom@));
    }
    while i < lints.len()
        invariant
            all == lints_view(lints@),
            n == chars@.len(),
            chars@ == text@,
            offsets@.len() == n + 1,
            forall|j: int| 0 <= j <= n ==> offsets@[j] == byte_len(#[trigger] chars@.take(j)),
            i <= lints@.len(),
            issues_view(r@) == issues_of(all.take(i as int), text@, custom@),
        decreases lints@.len() - i,
    {
        let lint = &lints[i];
        let ghost before = r@;
        proof {
            assert(all.take(i + 1).drop_last() =~= all.take(i as int));
            assert(all.take(i + 1).last() == lint@);
        }
        if lint.start <= n && lint.end <= n {
            let span: &[char] = if lint.start <= lint.end {
                vstd::slice::slice_subrange(chars.as_slice(), lint.start, lint.end)
            } else {
                vstd::slice::slice_subrange(chars.as_slice(), 0, 0)
            };
            proof {
                assert(span@ =~= span_text(text@, lint.start as int, lint.end as int));
            }
            let word = string_of(span);
            if !span_is_code(span, chars.as_slice(), lint.start, lint.end) && !custom.contains(
                word.as_str(),
            ) {
                let issue = SpellIssue {
                    byte_start: offsets[lint.start],
                    byte_end: offsets[lint.end],
                    char_start: lint.start,
                    char_end: lint.end,
                    word,
                    message: lint.message.clone(),
                    suggestions: replacement_texts(&lint.suggestions),
                    category: IssueCategory::from_kind(lint.kind),
                    priority: lint.priority,
                };
                proof {
                    assert(Some(issue@) == issue_of(lint@, text@, custom@));
                }
                r.push(issue);
                proof {
                    assert(issues_view(r@) =~= issues_view(before).push(issue@));
                }
            }
        }
        i += 1;
    }
    proof {
        assert(all.take(i as int) =~= all);
        issues_are_sound(all, text@, custom@);
    }
    r
}

pub struct SpellChecker {
    linter: LintGroup,
    custom: CustomDict,
}

impl SpellChecker {
    /// The words that are never flagged.
    pub closed spec fn dict(&self) -> Set<Seq<char>> {
        self.custom@
    }

    /// A checker with the bundled dictionary.
    pub fn new() -> (r: Self)
        ensures
            r.dict() == entries(DEFAULT_DICT_TEXT@),
    {
        SpellChecker::with_custom(CustomDict::bundled(None))
    }

    pub fn with_custom(custom: CustomDict) -> (r: Self)
        ensures
            r.dict() == custom@,
    {
        SpellChecker { linter: curated_linter(), custom }
    }

    /// The issues of `text`: none for a blank text or one that the linter
    /// cannot be run on, else those that the linter's findings become.
    pub fn check(&mut self, text: &str) -> (r: Vec<SpellIssue>)
        ensures
            final(self).dict() == old(self).dict(),
            all_sound(issues_view(r@), text@, old(self).dict()),
            possible_issues(text@, old(self).dict(), issues_view(r@)),
    {
        let chars = chars_of(text);
        let mut i: usize = 0;
        while i < chars.len() && chars[i].is_whitespace()
            invariant
                chars@ == text@,
                i <= chars@.len(),
                forall|j: int| 0 <= j < i ==> is_white_space(#[trigger] chars@[j]),
            decreases chars@.len() - i,
        {
            i += 1;
        }
        if i == chars.len() {
            return Vec::new();
        }
        let document = plain_document(text);
        let tokens = tokens_of(&document);
        if !can_lint(chars.as_slice(), tokens.as_slice()) {
            return Vec::new();
        }
        let lints = lint_document(&mut self.linter, &document);
        issues_from_lints(&lints, text, &self.custom)
    }
}

impl Default for SpellChecker {
    fn default() -> (r: Self)
        ensures
            r.dict() == entries(DEFAULT_DICT_TEXT@),
    {
        SpellChecker::new()
    }
}

/// What holds of every issue of a text: its span lies in the text, its word is
/// the text of the span by characters and by bytes, and the word is neither
/// shaped like code nor listed in the dictionary.
pub open spec fn is_sound(issue: IssueView, text: Seq<char>, dict: Set<Seq<char>>) -> bool {
    &&& 0 <= issue.char_start < issue.char_end <= text.len()
    &&& issue.word == text.subrange(issue.char_start, issue.char_end)
    &&& 0 <= issue.byte_start < issue.byte_end <= byte_len(text)
    &&& encode_utf8(text).subrange(issue.byte_start, issue.byte_end) == encode_utf8(issue.word)
    &&& issue.byte_start == byte_len(text.take(issue.char_start))
    &&& issue.byte_end == byte_len(text.take(issue.char_end))
    &&& !is_code(issue.word, text, issue.char_start, issue.char_end)
    &&& !dict.contains(lowercase(issue.word))
}

/// Every issue of a list is sound.
pub open spec fn all_sound(issues: Seq<IssueView>, text: Seq<char>, dict: Set<Seq<char>>) -> bool {
    forall|k: int| 0 <= k < issues.len() ==> is_sound(#[trigger] issues[k], text, dict)
}

/// Every issue is sound, whatever the linter reports.
pub proof fn issues_are_sound(lints: Seq<RawLintView>, text: Seq<char>, dict: Set<Seq<char>>)
    requires
        forall|i: int|
            0 <= i < lints.len() ==> 0 <= (#[trigger] lints[i]).start && 0 <= lints[i].end,
    ensures
        all_sound(issues_of(lints, text, dict), text, dict),
    decreases lints.len(),
{
    if lints.len() > 0 {
        let rest = lints.drop_last();
        assert forall|i: int| 0 <= i < rest.len() implies 0 <= (#[trigger] rest[i]).start && 0
            <= rest[i].end by {
            assert(rest[i] == lints[i]);
        }
        issues_are_sound(rest, text, dict);
        let lint = lints[lints.len() - 1];
        if let Some(issue) = issue_of(lint, text, dict) {
            byte_len_take(text, lint.start, lint.end);
            let word = text.subrange(lint.start, lint.end);
            assert(word.len() > 0);
            assert(word =~= seq![word[0]] + word.drop_first());
            encode_utf8_concat(seq![word[0]], word.drop_first());
            crate::text::byte_len_one(word[0]);
            assert(is_sound(issue, text, dict));
        }
        let before = issues_of(rest, text, dict);
        assert forall|k: int| 0 <= k < issues_of(lints, text, dict).len() implies is_sound(
            #[trigger] issues_of(lints, text, dict)[k],
            text,
            dict,
        ) by {
            if k < before.len() {
                assert(issues_of(lints, text, dict)[k] == before[k]);
            }
        }
    }
}

/// Words of prose are not shaped like code: a token that does not begin with a
/// hyphen, holds none of the symbols of paths and addresses, does not mix
/// letters with digits, has no dot inside unless it begins with one, is not all
/// capitals and has no capital right behind a small letter. So a misspelling at the start of a
/// sentence, with its capital, counts as any other.
pub proof fn prose_words_are_not_code(word: Seq<char>)
    requires
        word.len() > 0,
        word[0] != '-',
        forall|i: int|
            0 <= i < word.len() ==> (#[trigger] word[i]) != '/' && word[i] != '\\' && word[i] != '_'
                && word[i] != '@' && word[i] != '#' && word[i] != '$' && word[i] != ':',
        (forall|i: int| 0 <= i < word.len() ==> !('0' <= (#[trigger] word[i]) <= '9')) || (forall|
            i: int,
        |
            0 <= i < word.len() ==> !is_alphabetic(#[trigger] word[i])),
        word[0] == '.' || forall|i: int| 0 < i < word.len() - 1 ==> (#[trigger] word[i]) != '.',
        word.len() == 1 || exists|i: int|
            0 <= i < word.len() && !('A' <= (#[trigger] word[i]) <= 'Z'),
        forall|i: int|
            0 < i < word.len() ==> !('a' <= word[i - 1] <= 'z' && 'A' <= (#[trigger] word[i])
                <= 'Z'),
    ensures
        !is_code_token(word),
{
}

/// A word of letters, the first of them small or capital and the others small,
/// is not shaped like code.
pub proof fn plain_words_are_not_code(word: Seq<char>)
    requires
        is_plain_word(word),
    ensures
        !is_code_token(word),
{
    if word.len() > 1 {
        assert('a' <= word[1] <= 'z');
    }
    assert forall|i: int|
        0 < i < word.len() implies !('a' <= word[i - 1] <= 'z' && 'A' <= (#[trigger] word[i])
        <= 'Z') by {
        assert('a' <= word[i] <= 'z');
    }
    prose_words_are_not_code(word);
}

/// Whether a word is made of ASCII letters, small but for the first.
pub open spec fn is_plain_word(word: Seq<char>) -> bool {
    &&& word.len() > 0
    &&& 'a' <= word[0] <= 'z' || 'A' <= word[0] <= 'Z'
    &&& forall|i: int| 0 < i < word.len() ==> 'a' <= (#[trigger] word[i]) <= 'z'
}

/// A token with a symbol of paths, identifiers or addresses anywhere is code.
pub proof fn symbols_make_code(word: Seq<char>, i: int)
    requires
        0 <= i < word.len(),
        word[i] == '/' || word[i] == '\\' || word[i] == '_' || word[i] == '@' || word[i] == '#'
            || word[i] == '$' || word[i] == ':',
    ensures
        is_code_token(word),
{
    assert(is_code_symbol(word[i]));
}

/// A token with a hyphen in front is code: a flag.
pub proof fn flags_are_code(word: Seq<char>)
    requires
        word.len() > 0,
        word[0] == '-',
    ensures
        is_code_token(word),
{
}

/// A token with a letter and a digit anywhere is code: a version.
pub proof fn letters_with_digits_are_code(word: Seq<char>, i: int, j: int)
    requires
        0 <= i < word.len(),
        0 <= j < word.len(),
        is_alphabetic(word[i]),
        '0' <= word[j] <= '9',
    ensures
        is_code_token(word),
{
    assert(is_digit(word[j]));
}

/// A token with a dot inside is code: a file name.
pub proof fn inner_dots_make_code(word: Seq<char>, i: int)
    requires
        0 < i < word.len() - 1,
        word[i] == '.',
        word[0] != '.',
    ensures
        is_code_token(word),
{
    let d = first_dot(word, i);
    assert(0 < d < word.len() - 1 && word[d] == '.');
    assert(has_inner_dot(word));
}

/// A token of two or more capitals is code: an acronym.
pub proof fn acronyms_are_code(word: Seq<char>)
    requires
        word.len() >= 2,
        forall|i: int| 0 <= i < word.len() ==> 'A' <= (#[trigger] word[i]) <= 'Z',
    ensures
        is_code_token(word),
{
    assert forall|i: int| 0 <= i < word.len() implies is_upper(#[trigger] word[i]) by {}
}

/// A token with a capital right behind a small letter is code: a camel-case
/// name.
pub proof fn inner_capitals_make_code(word: Seq<char>, i: int)
    requires
        0 < i < word.len(),
        'a' <= word[i - 1] <= 'z',
        'A' <= word[i] <= 'Z',
    ensures
        is_code_token(word),
{
    assert(is_lower(word[i - 1]) && is_upper(word[i]));
}

/// The first dot of a word that has one at `i`.
proof fn first_dot(word: Seq<char>, i: int) -> (d: int)
    requires
        0 <= i < word.len(),
        word[i] == '.',
    ensures
        0 <= d <= i,
        word[d] == '.',
        forall|j: int| 0 <= j < d ==> word[j] != '.',
    decreases i,
{
    if exists|j: int| 0 <= j < i && word[j] == '.' {
        let j = choose|j: int| 0 <= j < i && word[j] == '.';
        first_dot(word, j)
    } else {
        i
    }
}

/// Whether a text has no backtick.
pub open spec fn has_no_backtick(text: Seq<char>) -> bool {
    forall|i: int| 0 <= i < text.len() ==> (#[trigger] text[i]) != '`'
}

proof fn no_backticks_before(text: Seq<char>, at: int)
    requires
        0 <= at <= text.len(),
        forall|i: int| 0 <= i < at ==> (#[trigger] text[i]) != '`',
    ensures
        backticks_before(text, at) == 0,
    decreases at,
{
    if at > 0 {
        no_backticks_before(text, at - 1);
    }
}

/// In a text without backticks one word is code exactly where its shape is.
pub proof fn one_word_goes_by_its_shape(
    word: Seq<char>,
    text: Seq<char>,
    start: int,
    end: int,
)
    requires
        word.len() > 0,
        forall|i: int| 0 <= i < word.len() ==> !is_white_space(#[trigger] word[i]),
        has_no_backtick(text),
    ensures
        is_code(word, text, start, end) == is_code_token(word),
{
    prose_is_not_backticked(text, start, end);
    let n = word.len() as int;
    assert(word.subrange(0, n) =~= word);
    assert(is_token(word, 0, n));
    assert forall|from: int, to: int| is_token(word, from, to) implies from == 0 && to == n by {
        if from > 0 {
            assert(!is_white_space(word[from - 1]));
        }
        if to < n {
            assert(!is_white_space(word[to]));
        }
    }
}

/// A text without backticks has no span in backticks.
pub proof fn prose_is_not_backticked(text: Seq<char>, start: int, end: int)
    requires
        has_no_backtick(text),
    ensures
        !is_backticked(text, start, end),
{
    if 0 <= start <= text.len() {
        no_backticks_before(text, start);
    }
}

/// Behind the last backtick nothing is in backticks.
pub proof fn text_after_spans_is_not_backticked(text: Seq<char>, start: int, end: int)
    requires
        0 <= start <= end <= text.len(),
        forall|i: int| end <= i < text.len() ==> (#[trigger] text[i]) != '`',
    ensures
        !is_backticked(text, start, end),
{
    backticks_stay(text, end, text.len() as int);
}

proof fn backticks_stay(text: Seq<char>, from: int, to: int)
    requires
        0 <= from <= to <= text.len(),
        forall|i: int| from <= i < to ==> (#[trigger] text[i]) != '`',
    ensures
        backticks_before(text, from) == backticks_before(text, to),
    decreases to - from,
{
    if from < to {
        backticks_stay(text, from, to - 1);
    }
}

/// Whatever stands between a first backtick and the next one is code, whether
/// it is all that stands there or a part of it.
pub proof fn backtick_spans_are_code(text: Seq<char>, open: int, close: int, start: int, end: int)
    requires
        0 <= open < start <= end <= close < text.len(),
        text[open] == '`',
        text[close] == '`',
        forall|i: int| 0 <= i < open || open < i < close ==> (#[trigger] text[i]) != '`',
    ensures
        is_code(text.subrange(start, end), text, start, end),
{
    no_backticks_before(text, open);
    assert(backticks_before(text, open + 1) == 1);
    backticks_stay(text, open + 1, start);
    backticks_stay(text, start, end);
    backticks_stay(text, end, close);
    assert(backticks_before(text, close + 1) == 2);
    backticks_grow(text, close + 1, text.len() as int);
}

proof fn backticks_grow(text: Seq<char>, from: int, to: int)
    requires
        0 <= from <= to <= text.len(),
    ensures
        backticks_before(text, from) <= backticks_before(text, to),
    decreases to - from,
{
    if from < to {
        backticks_grow(text, from, to - 1);
    }
}

/// A span of several words is code where one of its words is: two parts with a
/// blank between them are code together exactly where one of them is.
pub proof fn spans_go_by_their_words(
    a: Seq<char>,
    blank: char,
    b: Seq<char>,
    text: Seq<char>,
    start: int,
    end: int,
)
    requires
        a.len() > 0,
        b.len() > 0,
        is_white_space(blank),
        has_no_backtick(text),
    ensures
        is_code(a.push(blank) + b, text, start, end) == (is_code(a, text, start, end) || is_code(
            b,
            text,
            start,
            end,
        )),
{
    prose_is_not_backticked(text, start, end);
    let all = a.push(blank) + b;
    let n = a.len() as int;
    assert(all[n] == blank);
    assert forall|from: int, to: int| #[trigger]
        is_token(all, from, to) && is_code_token(all.subrange(from, to)) implies is_code(
        a,
        text,
        start,
        end,
    ) || is_code(b, text, start, end) by {
        if from <= n < to {
            assert(!is_white_space(all[n]));
        }
        if to <= n {
            assert(forall|i: int| 0 <= i < n ==> all[i] == a[i]);
            assert(all.subrange(from, to) =~= a.subrange(from, to));
            assert(is_token(a, from, to)) by {
                assert forall|i: int| from <= i < to implies !is_white_space(#[trigger] a[i]) by {
                    assert(!is_white_space(all[i]));
                }
            }
        } else {
            let f = from - n - 1;
            let t = to - n - 1;
            assert(forall|i: int| 0 <= i < b.len() ==> all[n + 1 + i] == b[i]);
            assert(all.subrange(from, to) =~= b.subrange(f, t));
            assert(is_token(b, f, t)) by {
                assert forall|i: int| f <= i < t implies !is_white_space(#[trigger] b[i]) by {
                    assert(!is_white_space(all[n + 1 + i]));
                }
                if f > 0 {
                    assert(all[from - 1] == b[f - 1]);
                }
                if t < b.len() {
                    assert(all[to] == b[t]);
                }
            }
        }
    }
    assert forall|from: int, to: int| #[trigger]
        is_token(a, from, to) && is_code_token(a.subrange(from, to)) implies is_code(
        all,
        text,
        start,
        end,
    ) by {
        assert(all.subrange(from, to) =~= a.subrange(from, to));
        assert(is_token(all, from, to)) by {
            assert forall|i: int| from <= i < to implies !is_white_space(#[trigger] all[i]) by {
                assert(!is_white_space(a[i]));
            }
            if from > 0 {
                assert(all[from - 1] == a[from - 1]);
            }
            if to < n {
                assert(all[to] == a[to]);
            }
        }
    }
    assert forall|from: int, to: int| #[trigger]
        is_token(b, from, to) && is_code_token(b.subrange(from, to)) implies is_code(
        all,
        text,
        start,
        end,
    ) by {
        let f = from + n + 1;
        let t = to + n + 1;
        assert(all.subrange(f, t) =~= b.subrange(from, to));
        assert(is_token(all, f, t)) by {
            assert forall|i: int| f <= i < t implies !is_white_space(#[trigger] all[i]) by {
                assert(!is_white_space(b[i - n - 1]));
            }
            if from > 0 {
                assert(all[f - 1] == b[from - 1]);
            }
            if to < b.len() {
                assert(all[t] == b[to]);
            }
        }
    }
}

/// Whether an issue is what a finding says: the same span, kind and message,
/// the text of the span as its word, the offsets of the span in bytes, and the
/// texts that the suggested edits bring in, in order.
pub open spec fn is_issue_of(issue: IssueView, lint: RawLintView, text: Seq<char>) -> bool {
    &&& issue.char_start == lint.start
    &&& issue.char_end == lint.end
    &&& issue.word == text.subrange(lint.start, lint.end)
    &&& issue.byte_start == encode_utf8(text.take(lint.start)).len()
    &&& issue.byte_end == encode_utf8(text.take(lint.end)).len()
    &&& issue.message == lint.message
    &&& issue.priority == lint.priority
    &&& issue.category == IssueCategory::of_kind(lint.kind)
    &&& issue.suggestions == replacements(lint.suggestions)
}

/// Every finding on a span of the text that is neither shaped like code nor a
/// word of the dictionary becomes an issue that says what the finding says.
pub proof fn findings_become_issues(lint: RawLintView, text: Seq<char>, dict: Set<Seq<char>>)
    requires
        0 <= lint.start <= lint.end <= text.len(),
        !is_code(text.subrange(lint.start, lint.end), text, lint.start, lint.end),
        !dict.contains(lowercase(text.subrange(lint.start, lint.end))),
    ensures
        issues_of(seq![lint], text, dict).len() == 1,
        is_issue_of(issues_of(seq![lint], text, dict)[0], lint, text),
{
    one_finding(lint, text, dict);
}

proof fn one_finding(lint: RawLintView, text: Seq<char>, dict: Set<Seq<char>>)
    ensures
        issues_of(seq![lint], text, dict) == match issue_of(lint, text, dict) {
            Some(issue) => seq![issue],
            None => Seq::empty(),
        },
{
    assert(seq![lint].drop_last() =~= Seq::<RawLintView>::empty());
    assert(issues_of(seq![lint].drop_last(), text, dict) =~= Seq::<IssueView>::empty());
    if let Some(issue) = issue_of(lint, text, dict) {
        assert(Seq::<IssueView>::empty().push(issue) =~= seq![issue]);
    }
}

/// A finding on a plain word, small or with a capital in front, is reported
/// wherever the text has no backticks and the dictionary lacks the word.
pub proof fn misspelled_words_are_reported(
    lint: RawLintView,
    text: Seq<char>,
    dict: Set<Seq<char>>,
)
    requires
        0 <= lint.start < lint.end <= text.len(),
        is_plain_word(text.subrange(lint.start, lint.end)),
        has_no_backtick(text),
        !dict.contains(lowercase(text.subrange(lint.start, lint.end))),
    ensures
        issues_of(seq![lint], text, dict).len() == 1,
        is_issue_of(issues_of(seq![lint], text, dict)[0], lint, text),
{
    let word = text.subrange(lint.start, lint.end);
    plain_words_are_not_code(word);
    assert forall|i: int| 0 <= i < word.len() implies !is_white_space(#[trigger] word[i]) by {
        if i > 0 {
            assert('a' <= word[i] <= 'z');
        }
    }
    one_word_goes_by_its_shape(word, text, lint.start, lint.end);
    findings_become_issues(lint, text, dict);
}

/// Findings on code, on words of the dictionary and on spans outside the text
/// are dropped.
pub proof fn other_findings_are_dropped(lint: RawLintView, text: Seq<char>, dict: Set<Seq<char>>)
    requires
        lint.start > text.len() || lint.end > text.len() || (0 <= lint.start <= lint.end && (
        is_code(text.subrange(lint.start, lint.end), text, lint.start, lint.end)
            || dict.contains(lowercase(text.subrange(lint.start, lint.end))))),
    ensures
        issues_of(seq![lint], text, dict).len() == 0,
{
    one_finding(lint, text, dict);
}

/// Each finding is judged for itself, and the issues come in the order of the
/// findings.
pub proof fn findings_are_judged_one_by_one(
    a: Seq<RawLintView>,
    b: Seq<RawLintView>,
    text: Seq<char>,
    dict: Set<Seq<char>>,
)
    ensures
        issues_of(a + b, text, dict) == issues_of(a, text, dict) + issues_of(b, text, dict),
        issues_of(Seq::empty(), text, dict).len() == 0,
    decreases b.len(),
{
    if b.len() == 0 {
        assert(a + b =~= a);
        assert(issues_of(a, text, dict) + issues_of(b, text, dict) =~= issues_of(a, text, dict));
    } else {
        findings_are_judged_one_by_one(a, b.drop_last(), text, dict);
        assert((a + b).drop_last() =~= a + b.drop_last());
        assert(issues_of(a + b, text, dict) =~= issues_of(a, text, dict) + issues_of(
            b,
            text,
            dict,
        ));
    }
}

/// The texts that edits bring in: each replacement or insertion its own, in
/// order, and a removal none.
pub proof fn edits_bring_in_their_texts(a: Seq<Option<Seq<char>>>, b: Seq<Option<Seq<char>>>)
    ensures
        replacements(a + b) == replacements(a) + replacements(b),
        a.len() == 1 && a[0] is Some ==> replacements(a) == seq![a[0]->0],
        a.len() == 1 && a[0] is None ==> replacements(a).len() == 0,
        a.len() == 0 ==> replacements(a).len() == 0,
    decreases b.len(),
{
    if a.len() == 1 {
        assert(a.drop_last() =~= Seq::<Option<Seq<char>>>::empty());
        assert(replacements(a.drop_last()) =~= Seq::<Seq<char>>::empty());
        if a[0] is Some {
            assert(replacements(a) =~= seq![a[0]->0]);
        }
    }
    if b.len() == 0 {
        assert(a + b =~= a);
        assert(replacements(a) + replacements(b) =~= replacements(a));
    } else {
        edits_bring_in_their_texts(a, b.drop_last());
        assert((a + b).drop_last() =~= a + b.drop_last());
        assert(replacements(a + b) =~= replacements(a) + replacements(b));
    }
}

/// The text of an edit is the text that the linter suggests.
pub proof fn edit_text_is_the_suggested_one(edit: Suggestion)
    ensures
        edit matches Suggestion::ReplaceWith(chars) ==> replacement(edit) == Some(chars@),
        edit matches Suggestion::InsertAfter(chars) ==> replacement(edit) == Some(chars@),
        edit is Remove ==> replacement(edit) is None,
{
}

/// Spelling and typing errors are spelling; agreement, malapropisms, eggcorns,
/// nonstandard forms and usage are grammar; all else is neither.
pub proof fn kinds_have_their_categories(kind: LintKind)
    ensures
        kind is Spelling || kind is Typo <==> IssueCategory::of_kind(kind)
            == IssueCategory::Spelling,
        kind is Agreement || kind is Malapropism || kind is Eggcorn || kind is Nonstandard
            || kind is Usage <==> IssueCategory::of_kind(kind) == IssueCategory::Grammar,
        kind is Style || kind is WordChoice || kind is Enhancement || kind is Readability
            || kind is Redundancy || kind is Repetition <==> IssueCategory::of_kind(kind)
            == IssueCategory::Style,
{
}

/// Spelling is always shown, grammar exactly where it is on, the rest never.
pub proof fn spelling_is_always_shown(grammar: bool)
    ensures
        actionable(IssueCategory::Spelling, grammar),
        actionable(IssueCategory::Grammar, grammar) == grammar,
        !actionable(IssueCategory::Style, grammar),
        !actionable(IssueCategory::Other, grammar),
{
}

/// A check of a text that is not blank reports each finding of the linter that
/// counts and nothing else: there is a list of findings that the linter may
/// have made such that every one of them on prose outside the dictionary is
/// among the issues, and every issue is one of them.
pub proof fn check_reports_what_was_found(
    text: Seq<char>,
    dict: Set<Seq<char>>,
    issues: Seq<IssueView>,
)
    requires
        possible_issues(text, dict, issues),
        exists|i: int| 0 <= i < text.len() && !is_white_space(#[trigger] text[i]),
        is_lintable(text, plain_tokens(text)),
    ensures
        exists|lints: Seq<RawLintView>| #[trigger]
            may_report(text, lints) && reports_all(lints, text, dict, issues) && reports_only(
                lints,
                text,
                issues,
            ),
{
    assert(!is_blank(text));
    let lints = choose|lints: Seq<RawLintView>| #[trigger]
        may_report(text, lints) && issues == issues_of(lints, text, dict);
    assert forall|k: int|
        0 <= k < lints.len() && counts(#[trigger] lints[k], text, dict) implies exists|j: int|
        0 <= j < issues.len() && is_issue_of(#[trigger] issues[j], lints[k], text) by {
        finding_is_among_issues(lints, text, dict, k);
    }
    assert forall|j: int|
        0 <= j < issues.len() && lints_in_order(lints) implies exists|k: int|
        0 <= k < lints.len() && is_issue_of(#[trigger] issues[j], #[trigger] lints[k], text) by {
        issue_comes_from_finding(lints, text, dict, j);
    }
}

/// Whether a finding counts: its span lies in the text, and what stands there
/// is neither shaped like code nor a word of the dictionary.
pub open spec fn counts(lint: RawLintView, text: Seq<char>, dict: Set<Seq<char>>) -> bool {
    &&& 0 <= lint.start <= lint.end <= text.len()
    &&& !is_code(text.subrange(lint.start, lint.end), text, lint.start, lint.end)
    &&& !dict.contains(lowercase(text.subrange(lint.start, lint.end)))
}

/// Whether every finding that counts is among the issues.
pub open spec fn reports_all(
    lints: Seq<RawLintView>,
    text: Seq<char>,
    dict: Set<Seq<char>>,
    issues: Seq<IssueView>,
) -> bool {
    forall|k: int|
        0 <= k < lints.len() && counts(#[trigger] lints[k], text, dict) ==> exists|j: int|
            0 <= j < issues.len() && is_issue_of(#[trigger] issues[j], lints[k], text)
}

/// Whether no span of a finding ends before it starts.
pub open spec fn lints_in_order(lints: Seq<RawLintView>) -> bool {
    forall|k: int| 0 <= k < lints.len() ==> 0 <= (#[trigger] lints[k]).start <= lints[k].end
}

/// Whether every issue is one of the findings, as long as their spans are in
/// order.
pub open spec fn reports_only(
    lints: Seq<RawLintView>,
    text: Seq<char>,
    issues: Seq<IssueView>,
) -> bool {
    forall|j: int|
        #![trigger issues[j]]
        0 <= j < issues.len() && lints_in_order(lints) ==> exists|k: int|
            0 <= k < lints.len() && is_issue_of(issues[j], #[trigger] lints[k], text)
}

proof fn finding_is_among_issues(
    lints: Seq<RawLintView>,
    text: Seq<char>,
    dict: Set<Seq<char>>,
    k: int,
)
    requires
        0 <= k < lints.len(),
        counts(lints[k], text, dict),
    ensures
        exists|j: int|
            0 <= j < issues_of(lints, text, dict).len() && is_issue_of(
                #[trigger] issues_of(lints, text, dict)[j],
                lints[k],
                text,
            ),
    decreases lints.len(),
{
    let init = lints.drop_last();
    let before = issues_of(init, text, dict);
    let all = issues_of(lints, text, dict);
    if k < init.len() {
        assert(init[k] == lints[k]);
        finding_is_among_issues(init, text, dict, k);
        let j = choose|j: int|
            0 <= j < before.len() && is_issue_of(#[trigger] before[j], lints[k], text);
        assert(all[j] == before[j]);
    } else {
        assert(all[before.len() as int] == issue_of(lints.last(), text, dict)->0);
    }
}

proof fn issue_comes_from_finding(
    lints: Seq<RawLintView>,
    text: Seq<char>,
    dict: Set<Seq<char>>,
    j: int,
)
    requires
        0 <= j < issues_of(lints, text, dict).len(),
        lints_in_order(lints),
    ensures
        exists|k: int|
            0 <= k < lints.len() && is_issue_of(
                issues_of(lints, text, dict)[j],
                #[trigger] lints[k],
                text,
            ),
    decreases lints.len(),
{
    let init = lints.drop_last();
    let before = issues_of(init, text, dict);
    let all = issues_of(lints, text, dict);
    if j < before.len() {
        assert(all[j] == before[j]);
        assert forall|k: int| 0 <= k < init.len() implies 0 <= (#[trigger] init[k]).start
            <= init[k].end by {
            assert(init[k] == lints[k]);
        }
        issue_comes_from_finding(init, text, dict, j);
        let k = choose|k: int|
            0 <= k < init.len() && is_issue_of(before[j], #[trigger] init[k], text);
        assert(lints[k] == init[k]);
    } else {
        let n = lints.len() - 1;
        assert(0 <= lints[n].start <= lints[n].end);
        assert(is_issue_of(all[j], lints[n], text));
    }
}

/// Between two spans of backticks the text is prose again.
pub proof fn text_between_spans_is_not_backticked(
    text: Seq<char>,
    open: int,
    close: int,
    start: int,
    end: int,
)
    requires
        0 <= open < close < start <= end <= text.len(),
        text[open] == '`',
        text[close] == '`',
        forall|i: int|
            0 <= i < open || open < i < close || close < i < end ==> (#[trigger] text[i]) != '`',
        start > close + 1 || (end < text.len() && text[end] != '`') || end == text.len(),
    ensures
        !is_backticked(text, start, end),
{
    no_backticks_before(text, open);
    assert(backticks_before(text, open + 1) == 1);
    backticks_stay(text, open + 1, close);
    assert(backticks_before(text, close + 1) == 2);
    backticks_stay(text, close + 1, start);
    if start > close + 1 {
        assert(text[start - 1] != '`');
    }
}

/// Each span of backticks counts for itself: a whole span before a text
/// changes nothing about what stands in backticks in that text.
pub proof fn spans_count_for_themselves(
    a: Seq<char>,
    b: Seq<char>,
    c: Seq<char>,
    text: Seq<char>,
    start: int,
    end: int,
)
    requires
        has_no_backtick(a),
        has_no_backtick(b),
        has_no_backtick(c),
        0 < start <= end <= text.len(),
    ensures
        ({
            let before = a.push('`') + b.push('`') + c;
            let n = before.len() as int;
            is_backticked(before + text, n + start, n + end) == is_backticked(text, start, end)
        }),
{
    let before = a.push('`') + b.push('`') + c;
    let all = before + text;
    let n = before.len() as int;
    let i = a.len() as int;
    let j = (a.len() + 1 + b.len()) as int;
    assert forall|k: int| 0 <= k < n && k != i && k != j implies all[k] != '`' by {
        if k < i {
            assert(all[k] == a[k]);
        } else if k < j {
            assert(all[k] == b[k - i - 1]);
        } else {
            assert(all[k] == c[k - j - 1]);
        }
    }
    assert(all[i] == '`' && all[j] == '`');
    no_backticks_before(all, i);
    assert(backticks_before(all, i + 1) == 1);
    backticks_stay(all, i + 1, j);
    assert(backticks_before(all, j + 1) == 2);
    backticks_stay(all, j + 1, n);
    backticks_shift(before, text, start);
    backticks_shift(before, text, end);
    backticks_shift(before, text, text.len() as int);
    assert(all[n + start - 1] == text[start - 1]);
    if end < text.len() {
        assert(all[n + end] == text[end]);
    }
}

proof fn backticks_shift(before: Seq<char>, text: Seq<char>, at: int)
    requires
        0 <= at <= text.len(),
    ensures
        backticks_before(before + text, before.len() + at) == backticks_before(
            before + text,
            before.len() as int,
        ) + backticks_before(text, at),
    decreases at,
{
    if at > 0 {
        backticks_shift(before, text, at - 1);
        assert((before + text)[before.len() + at - 1] == text[at - 1]);
    }
}

/// An empty span is never an issue.
pub proof fn empty_spans_are_dropped(text: Seq<char>, start: int, end: int)
    ensures
        is_code(Seq::empty(), text, start, end),
{
}

} // verus!
