//! The texts that the linter can be run on.
//!
//! On rare texts a rule of the linter stops the program instead of reporting:
//! - the rule on "of curse" looks at the word before, and fails where the text
//!   begins with that phrase;
//! - the rule on "could of" knows matches of three, five and seven tokens, and
//!   fails on any other: words may be parted by more than one token of
//!   whitespace, such as a space and a line end.
//!
//! Both go by the linter's own tokens.

use crate::spell::is_upper;
use crate::text::chars_of;
use vstd::prelude::*;

verus! {

/// A token of the linter: where it stands in the text, by characters, and
/// whether it is a word, whitespace or something else.
#[derive(Debug, Clone, Copy, PartialEq, Eq, Structural)]
pub struct TextToken {
    pub start: usize,
    pub end: usize,
    pub word: bool,
    pub blank: bool,
}

/// Whether `c` is `lower` in either case, or an apostrophe of any shape where
/// `lower` is one. `lower` is in lower case.
pub open spec fn same_char(c: char, lower: char) -> bool {
    ||| c == lower
    ||| is_upper(c) && c as u32 + 32 == lower as u32
    ||| lower == '\'' && (c == '\u{2018}' || c == '\u{2019}' || c == '\u{2BC}' || c == '\u{FF07}')
}

/// Whether a token is the word `word`, in any case.
pub open spec fn is_word(text: Seq<char>, token: TextToken, word: Seq<char>) -> bool {
    &&& token.word
    &&& token.end == token.start + word.len()
    &&& token.end <= text.len()
    &&& forall|k: int|
        0 <= k < word.len() ==> same_char(text[token.start + k], #[trigger] word[k])
}

/// Whether the token at `i` is the word `word`.
pub open spec fn word_at(
    text: Seq<char>,
    tokens: Seq<TextToken>,
    i: int,
    word: Seq<char>,
) -> bool {
    0 <= i < tokens.len() && is_word(text, tokens[i], word)
}

/// Where the whitespace that begins at `i` ends.
pub open spec fn blank_end(tokens: Seq<TextToken>, i: int) -> int
    decreases tokens.len() - i,
{
    if 0 <= i < tokens.len() && tokens[i].blank {
        blank_end(tokens, i + 1)
    } else {
        i
    }
}

/// The index behind `word`, where it follows the token before `i` with
/// whitespace between.
pub open spec fn after_word(
    text: Seq<char>,
    tokens: Seq<TextToken>,
    i: int,
    word: Seq<char>,
) -> Option<int> {
    let next = blank_end(tokens, i);
    if next > i && word_at(text, tokens, next, word) {
        Some(next + 1)
    } else {
        None
    }
}

/// Whether the token at `i` is a modal verb without a negation.
pub open spec fn plain_modal_at(text: Seq<char>, tokens: Seq<TextToken>, i: int) -> bool {
    ||| word_at(text, tokens, i, "can"@)
    ||| word_at(text, tokens, i, "could"@)
    ||| word_at(text, tokens, i, "may"@)
    ||| word_at(text, tokens, i, "might"@)
    ||| word_at(text, tokens, i, "must"@)
    ||| word_at(text, tokens, i, "shall"@)
    ||| word_at(text, tokens, i, "should"@)
    ||| word_at(text, tokens, i, "will"@)
    ||| word_at(text, tokens, i, "would"@)
    ||| word_at(text, tokens, i, "ought"@)
    ||| word_at(text, tokens, i, "dare"@)
}

/// Whether the token at `i` is a modal verb with "n't" behind it.
pub open spec fn negated_modal_at(text: Seq<char>, tokens: Seq<TextToken>, i: int) -> bool {
    ||| word_at(text, tokens, i, "cann't"@)
    ||| word_at(text, tokens, i, "couldn't"@)
    ||| word_at(text, tokens, i, "mayn't"@)
    ||| word_at(text, tokens, i, "mightn't"@)
    ||| word_at(text, tokens, i, "mustn't"@)
    ||| word_at(text, tokens, i, "shalln't"@)
    ||| word_at(text, tokens, i, "shouldn't"@)
    ||| word_at(text, tokens, i, "willn't"@)
    ||| word_at(text, tokens, i, "wouldn't"@)
    ||| word_at(text, tokens, i, "oughtn't"@)
    ||| word_at(text, tokens, i, "daren't"@)
}

/// The index behind a modal verb at `i` and "of".
pub open spec fn modal_of(text: Seq<char>, tokens: Seq<TextToken>, i: int) -> Option<int> {
    if plain_modal_at(text, tokens, i) || negated_modal_at(text, tokens, i) {
        after_word(text, tokens, i + 1, "of"@)
    } else {
        None
    }
}

/// The index behind any word at `i`, "might" and "of".
pub open spec fn word_might_of(text: Seq<char>, tokens: Seq<TextToken>, i: int) -> Option<int> {
    if 0 <= i < tokens.len() && tokens[i].word {
        match after_word(text, tokens, i + 1, "might"@) {
            Some(next) => after_word(text, tokens, next, "of"@),
            None => None,
        }
    } else {
        None
    }
}

/// The same index, or the one behind a "course" that follows.
pub open spec fn with_course(text: Seq<char>, tokens: Seq<TextToken>, end: Option<int>) -> Option<
    int,
> {
    match end {
        Some(e) => match after_word(text, tokens, e, "course"@) {
            Some(c) => Some(c),
            None => Some(e),
        },
        None => None,
    }
}

/// The later of two indices.
pub open spec fn later(a: Option<int>, b: Option<int>) -> Option<int> {
    match (a, b) {
        (Some(x), Some(y)) => if x < y {
            b
        } else {
            a
        },
        (Some(_), None) => a,
        (None, _) => b,
    }
}

/// The end of the longest match of the rule on modal verbs at `i`.
pub open spec fn modal_match(text: Seq<char>, tokens: Seq<TextToken>, i: int) -> Option<int> {
    later(
        with_course(text, tokens, word_might_of(text, tokens, i)),
        with_course(text, tokens, modal_of(text, tokens, i)),
    )
}

/// Whether the rule on modal verbs knows all its matches from `i` on. A match
/// counts where it begins at `free` or later, that is behind the one before.
pub open spec fn modals_are_known(
    text: Seq<char>,
    tokens: Seq<TextToken>,
    i: int,
    free: int,
) -> bool
    decreases tokens.len() - i,
{
    if i >= tokens.len() {
        true
    } else {
        match modal_match(text, tokens, i) {
            Some(end) => if i >= free {
                &&& end - i == 3 || end - i == 5 || end - i == 7
                &&& modals_are_known(text, tokens, i + 1, end)
            } else {
                modals_are_known(text, tokens, i + 1, free)
            },
            None => modals_are_known(text, tokens, i + 1, free),
        }
    }
}

/// Whether the phrase "of curse" begins with the token at `i`, and the text
/// with that token.
pub open spec fn is_of_curse(text: Seq<char>, tokens: Seq<TextToken>, i: int) -> bool {
    &&& word_at(text, tokens, i, "of"@)
    &&& tokens[i].start == 0
    &&& after_word(text, tokens, i + 1, "curse"@) is Some || after_word(
        text,
        tokens,
        i + 1,
        "corse"@,
    ) is Some
}

/// Whether the linter can be run on a text with these tokens.
pub open spec fn is_lintable(text: Seq<char>, tokens: Seq<TextToken>) -> bool {
    &&& modals_are_known(text, tokens, 0, 0)
    &&& forall|i: int| 0 <= i < tokens.len() ==> !#[trigger] is_of_curse(text, tokens, i)
}

fn same(c: char, lower: char) -> (r: bool)
    ensures
        r == same_char(c, lower),
{
    c == lower || ('A' <= c && c <= 'Z' && c as u32 + 32 == lower as u32) || (lower == '\'' && (c
        == '\u{2018}' || c == '\u{2019}' || c == '\u{2BC}' || c == '\u{FF07}'))
}

fn has_word(text: &[char], tokens: &[TextToken], i: usize, word: &str) -> (r: bool)
    ensures
        r == word_at(text@, tokens@, i as int, word@),
{
    let letters = chars_of(word);
    if i >= tokens.len() {
        return false;
    }
    let token = tokens[i];
    let n: usize = text.len();
    if !token.word || token.end > n || token.start > token.end || token.end - token.start
        != letters.len() {
        return false;
    }
    let mut k: usize = 0;
    while k < letters.len()
        invariant
            letters@ == word@,
            k <= word@.len(),
            n == text@.len(),
            i < tokens@.len(),
            token == tokens@[i as int],
            token.start + word@.len() == token.end <= n,
            forall|j: int| 0 <= j < k ==> same_char(text@[token.start + j], #[trigger] word@[j]),
        decreases word@.len() - k,
    {
        if !same(text[token.start + k], letters[k]) {
            proof {
                assert(!same_char(text@[token.start + k], word@[k as int]));
            }
            return false;
        }
        k += 1;
    }
    true
}

fn find_blank_end(tokens: &[TextToken], i: usize) -> (r: usize)
    ensures
        r == blank_end(tokens@, i as int),
        i <= r,
        i <= tokens@.len() ==> r <= tokens@.len(),
{
    let mut at: usize = i;
    while at < tokens.len() && tokens[at].blank
        invariant
            i <= at,
            i <= tokens@.len() ==> at <= tokens@.len(),
            blank_end(tokens@, i as int) == blank_end(tokens@, at as int),
        decreases tokens@.len() - at,
    {
        at += 1;
    }
    at
}

/// What an index found stands for.
pub open spec fn found(r: Option<usize>) -> Option<int> {
    match r {
        Some(i) => Some(i as int),
        None => None,
    }
}

fn find_after_word(text: &[char], tokens: &[TextToken], i: usize, word: &str) -> (r: Option<usize>)
    ensures
        found(r) == after_word(text@, tokens@, i as int, word@),
        r matches Some(end) ==> end <= tokens@.len(),
{
    let n: usize = tokens.len();
    let next: usize = find_blank_end(tokens, i);
    if next > i && next < n && has_word(text, tokens, next, word) {
        Some(next + 1)
    } else {
        None
    }
}

fn has_plain_modal(text: &[char], tokens: &[TextToken], i: usize) -> (r: bool)
    ensures
        r == plain_modal_at(text@, tokens@, i as int),
{
    has_word(text, tokens, i, "can") || has_word(text, tokens, i, "could") || has_word(
        text,
        tokens,
        i,
        "may",
    ) || has_word(text, tokens, i, "might") || has_word(text, tokens, i, "must") || has_word(
        text,
        tokens,
        i,
        "shall",
    ) || has_word(text, tokens, i, "should") || has_word(text, tokens, i, "will") || has_word(
        text,
        tokens,
        i,
        "would",
    ) || has_word(text, tokens, i, "ought") || has_word(text, tokens, i, "dare")
}

fn has_negated_modal(text: &[char], tokens: &[TextToken], i: usize) -> (r: bool)
    ensures
        r == negated_modal_at(text@, tokens@, i as int),
{
    has_word(text, tokens, i, "cann't") || has_word(text, tokens, i, "couldn't") || has_word(
        text,
        tokens,
        i,
        "mayn't",
    ) || has_word(text, tokens, i, "mightn't") || has_word(text, tokens, i, "mustn't") || has_word(
        text,
        tokens,
        i,
        "shalln't",
    ) || has_word(text, tokens, i, "shouldn't") || has_word(text, tokens, i, "willn't")
        || has_word(text, tokens, i, "wouldn't") || has_word(text, tokens, i, "oughtn't")
        || has_word(text, tokens, i, "daren't")
}

fn find_course(text: &[char], tokens: &[TextToken], end: Option<usize>) -> (r: Option<usize>)
    ensures
        found(r) == with_course(text@, tokens@, found(end)),
{
    match end {
        Some(e) => match find_after_word(text, tokens, e, "course") {
            Some(c) => Some(c),
            None => Some(e),
        },
        None => None,
    }
}

fn find_modal_match(text: &[char], tokens: &[TextToken], i: usize) -> (r: Option<usize>)
    requires
        i < tokens@.len(),
    ensures
        found(r) == modal_match(text@, tokens@, i as int),
{
    let any_word = tokens[i].word;
    let next: usize = i + 1;
    let modal: Option<usize> = if has_plain_modal(text, tokens, i) || has_negated_modal(
        text,
        tokens,
        i,
    ) {
        find_after_word(text, tokens, next, "of")
    } else {
        None
    };
    let might: Option<usize> = if any_word {
        match find_after_word(text, tokens, next, "might") {
            Some(end) => find_after_word(text, tokens, end, "of"),
            None => None,
        }
    } else {
        None
    };
    match (find_course(text, tokens, might), find_course(text, tokens, modal)) {
        (Some(x), Some(y)) => if x < y {
            Some(y)
        } else {
            Some(x)
        },
        (Some(x), None) => Some(x),
        (None, y) => y,
    }
}

fn opens_with_of_curse(text: &[char], tokens: &[TextToken], i: usize) -> (r: bool)
    requires
        i < tokens@.len(),
    ensures
        r == is_of_curse(text@, tokens@, i as int),
{
    tokens[i].start == 0 && has_word(text, tokens, i, "of") && (find_after_word(
        text,
        tokens,
        i + 1,
        "curse",
    ).is_some() || find_after_word(text, tokens, i + 1, "corse").is_some())
}

/// Decides whether the linter can be run on a text with these tokens.
pub fn can_lint(text: &[char], tokens: &[TextToken]) -> (r: bool)
    ensures
        r == is_lintable(text@, tokens@),
{
    let mut free: usize = 0;
    let mut i: usize = 0;
    while i < tokens.len()
        invariant
            i <= tokens@.len(),
            modals_are_known(text@, tokens@, 0, 0) == modals_are_known(
                text@,
                tokens@,
                i as int,
                free as int,
            ),
            forall|k: int| 0 <= k < i ==> !#[trigger] is_of_curse(text@, tokens@, k),
        decreases tokens@.len() - i,
    {
        if opens_with_of_curse(text, tokens, i) {
            return false;
        }
        if let Some(end) = find_modal_match(text, tokens, i) {
            if i >= free {
                if end < i {
                    return false;
                }
                let length: usize = end - i;
                if length != 3 && length != 5 && length != 7 {
                    return false;
                }
                free = end;
            }
        }
        i += 1;
    }
    true
}

/// The linter is run on every text that does not hold the word "of".
pub proof fn texts_without_of_are_linted(text: Seq<char>, tokens: Seq<TextToken>)
    requires
        forall|i: int| 0 <= i < tokens.len() ==> !is_word(text, #[trigger] tokens[i], "of"@),
    ensures
        is_lintable(text, tokens),
{
    no_of_no_match(text, tokens, 0, 0);
    assert forall|i: int| 0 <= i < tokens.len() implies !#[trigger] is_of_curse(
        text,
        tokens,
        i,
    ) by {
        assert(!is_word(text, tokens[i], "of"@));
    }
}

proof fn no_of_no_match(text: Seq<char>, tokens: Seq<TextToken>, i: int, free: int)
    requires
        0 <= i,
        forall|k: int| 0 <= k < tokens.len() ==> !is_word(text, #[trigger] tokens[k], "of"@),
    ensures
        modals_are_known(text, tokens, i, free),
    decreases tokens.len() - i,
{
    if i < tokens.len() {
        assert forall|k: int| after_word(text, tokens, k, "of"@) is None by {
            let next = blank_end(tokens, k);
            if 0 <= next < tokens.len() {
                assert(!is_word(text, tokens[next], "of"@));
            }
        }
        no_of_no_match(text, tokens, i + 1, free);
    }
}

/// The linter is run on every text whose words are parted by single tokens of
/// whitespace and that does not begin with "of".
pub proof fn evenly_spaced_texts_are_linted(text: Seq<char>, tokens: Seq<TextToken>)
    requires
        forall|i: int|
            0 <= i < tokens.len() - 1 ==> !((#[trigger] tokens[i]).blank && tokens[i + 1].blank),
        forall|i: int| 0 <= i < tokens.len() ==> !((#[trigger] tokens[i]).blank && tokens[i].word),
        forall|i: int|
            0 <= i < tokens.len() && (#[trigger] tokens[i]).start == 0 ==> !is_word(
                text,
                tokens[i],
                "of"@,
            ),
    ensures
        is_lintable(text, tokens),
{
    even_matches_are_known(text, tokens, 0, 0);
    assert forall|i: int| 0 <= i < tokens.len() implies !#[trigger] is_of_curse(
        text,
        tokens,
        i,
    ) by {
        assert(tokens[i].start == 0 ==> !is_word(text, tokens[i], "of"@));
    }
}

/// A word that follows with one blank stands two tokens on.
proof fn even_step(text: Seq<char>, tokens: Seq<TextToken>, k: int, word: Seq<char>)
    requires
        0 <= k,
        forall|i: int|
            0 <= i < tokens.len() - 1 ==> !((#[trigger] tokens[i]).blank && tokens[i + 1].blank),
    ensures
        after_word(text, tokens, k, word) matches Some(end) ==> end == k + 2,
{
    if k < tokens.len() && tokens[k].blank {
        assert(k + 1 < tokens.len() ==> !tokens[k + 1].blank);
        assert(blank_end(tokens, k) == blank_end(tokens, k + 1));
        assert(blank_end(tokens, k + 1) == k + 1);
    }
}

proof fn even_matches_are_known(text: Seq<char>, tokens: Seq<TextToken>, i: int, free: int)
    requires
        0 <= i,
        forall|k: int|
            0 <= k < tokens.len() - 1 ==> !((#[trigger] tokens[k]).blank && tokens[k + 1].blank),
    ensures
        modals_are_known(text, tokens, i, free),
    decreases tokens.len() - i,
{
    if i < tokens.len() {
        even_step(text, tokens, i + 1, "of"@);
        even_step(text, tokens, i + 1, "might"@);
        even_step(text, tokens, i + 3, "of"@);
        even_step(text, tokens, i + 3, "course"@);
        even_step(text, tokens, i + 5, "course"@);
        match modal_match(text, tokens, i) {
            Some(end) => {
                assert(end == i + 3 || end == i + 5 || end == i + 7);
                even_matches_are_known(text, tokens, i + 1, end);
                even_matches_are_known(text, tokens, i + 1, free);
            },
            None => {
                even_matches_are_known(text, tokens, i + 1, free);
            },
        }
    }
}

/// The linter is not run on a text that begins with "of" and goes on with
/// "curse" or "corse" behind whitespace.
pub proof fn of_curse_is_not_linted(text: Seq<char>, tokens: Seq<TextToken>, n: int)
    requires
        2 <= n < tokens.len(),
        tokens[0].start == 0,
        is_word(text, tokens[0], "of"@),
        forall|i: int| 1 <= i < n ==> (#[trigger] tokens[i]).blank,
        !tokens[n].blank,
        is_word(text, tokens[n], "curse"@) || is_word(text, tokens[n], "corse"@),
    ensures
        !is_lintable(text, tokens),
{
    blanks_end(tokens, 1, n);
    assert(is_of_curse(text, tokens, 0));
}

proof fn blanks_end(tokens: Seq<TextToken>, i: int, n: int)
    requires
        0 <= i <= n < tokens.len(),
        forall|k: int| i <= k < n ==> (#[trigger] tokens[k]).blank,
        !tokens[n].blank,
    ensures
        blank_end(tokens, i) == n,
    decreases n - i,
{
    if i < n {
        blanks_end(tokens, i + 1, n);
    }
}

/// Nor is it run on a text of a modal verb and "of" that are parted by two
/// tokens of whitespace.
pub proof fn parted_modal_is_not_linted(text: Seq<char>, tokens: Seq<TextToken>)
    requires
        tokens.len() == 4,
        is_word(text, tokens[0], "could"@),
        tokens[1].blank,
        tokens[2].blank,
        is_word(text, tokens[3], "of"@),
        !tokens[3].blank,
    ensures
        !is_lintable(text, tokens),
{
    blanks_end(tokens, 1, 3);
    assert(after_word(text, tokens, 1, "of"@) == Some(4int));
    assert(word_at(text, tokens, 0, "could"@));
    assert(modal_of(text, tokens, 0) == Some(4int));
    assert(!word_at(text, tokens, 3, "might"@)) by {
        reveal_strlit("of");
        reveal_strlit("might");
    }
    assert(word_might_of(text, tokens, 0) is None);
    assert(blank_end(tokens, 4) == 4);
    assert(modal_match(text, tokens, 0) == Some(4int));
    assert(!modals_are_known(text, tokens, 0, 0));
}

} // verus!
