//! Status row.
//!
//! Owns the bottom row of the terminal when it is turned on, and shows there
//! how many issues are found. Nothing is drawn without issues. Each draw saves
//! and restores the cursor, so the child's cursor and attributes are
//! untouched.

use crate::ansi::push_text;
use crate::config::{number_text, push_number, Settings};
use crate::echo::{EchoMatcher, EchoModel};
use crate::screen::ScreenState;
use crate::spell::{actionable, is_actionable_category, issues_view, IssueCategory, IssueView};
use crate::text::same_text;
use vstd::prelude::*;
use vstd::utf8::encode_utf8;

verus! {

/// The words of the issues that are shown.
pub open spec fn shown_words(lints: Seq<IssueView>, grammar: bool) -> Set<Seq<char>> {
    Set::new(
        |w: Seq<char>|
            exists|i: int|
                0 <= i < lints.len() && actionable((#[trigger] lints[i]).category, grammar)
                    && lints[i].word == w,
    )
}

/// The message for `n` issues; none for zero.
pub open spec fn count_text(n: nat) -> Seq<char> {
    if n == 0 {
        Seq::empty()
    } else {
        "tuipo · "@ + number_text(n) + (if n == 1 {
            " issue"@
        } else {
            " issues"@
        }) + " · Tab to fix"@
    }
}

/// `s` cut to `width` characters.
pub open spec fn cut(s: Seq<char>, width: int) -> Seq<char> {
    if s.len() <= width {
        s
    } else {
        s.take(width)
    }
}

/// What is written for the status row.
pub open spec fn status_text(m: EchoModel, screen: ScreenState, settings: Settings) -> Seq<char> {
    let n = shown_words(m.lints, settings.grammar).len();
    if !settings.paint || !settings.status_row || n == 0 {
        Seq::empty()
    } else {
        "\x1b7\x1b["@ + number_text(screen.rows as nat) + ";1H\x1b[2K\x1b[2;36m"@ + cut(
            count_text(n),
            screen.cols as int,
        ) + "\x1b[0m\x1b8"@
    }
}

/// Counts the distinct words of the issues that are shown.
fn count_words(matcher: &EchoMatcher, grammar_enabled: bool) -> (r: usize)
    ensures
        r == shown_words(matcher@.lints, grammar_enabled).len(),
{
    let lints = matcher.lints();
    let ghost all = matcher@.lints;
    let mut seen: Vec<&str> = Vec::new();
    let ghost mut words = Seq::<Seq<char>>::empty();
    let mut i: usize = 0;
    while i < lints.len()
        invariant
            all == issues_view(lints@),
            i <= lints@.len(),
            seen@.len() == words.len(),
            words.no_duplicates(),
            forall|j: int| 0 <= j < seen@.len() ==> (#[trigger] seen@[j])@ == words[j],
            forall|w: Seq<char>| #[trigger]
                words.contains(w) <==> exists|j: int|
                    0 <= j < i && actionable((#[trigger] all[j]).category, grammar_enabled)
                        && all[j].word == w,
        decreases lints@.len() - i,
    {
        let lint = &lints[i];
        let ghost before = words;
        assert(all[i as int] == lint@);
        if is_actionable_category(lint.category, grammar_enabled) {
            let word = lint.word.as_str();
            let mut found = false;
            let mut k: usize = 0;
            while k < seen.len()
                invariant
                    seen@.len() == words.len(),
                    forall|j: int| 0 <= j < seen@.len() ==> (#[trigger] seen@[j])@ == words[j],
                    k <= seen@.len(),
                    found == exists|j: int| 0 <= j < k && #[trigger] words[j] == word@,
                decreases seen@.len() - k,
            {
                assert(seen@[k as int]@ == words[k as int]);
                if same_text(seen[k], word) {
                    found = true;
                }
                k += 1;
            }
            if !found {
                seen.push(word);
                proof {
                    words = words.push(word@);
                }
            }
            proof {
                assert forall|w: Seq<char>| #[trigger]
                    words.contains(w) <==> before.contains(w) || w == word@ by {
                    if before.contains(w) {
                        let j = before.index_of(w);
                        assert(words[j] == w);
                    }
                    if !found {
                        assert(words[before.len() as int] == word@);
                    }
                }
            }
        }
        proof {
            assert forall|w: Seq<char>| #[trigger]
                words.contains(w) <==> exists|j: int|
                    0 <= j < i + 1 && actionable((#[trigger] all[j]).category, grammar_enabled)
                        && all[j].word == w by {
                if before.contains(w) {
                    let j = choose|j: int|
                        0 <= j < i && actionable((#[trigger] all[j]).category, grammar_enabled)
                            && all[j].word == w;
                    assert(actionable(all[j].category, grammar_enabled));
                }
            }
        }
        i += 1;
    }
    proof {
        assert(words.to_set() =~= shown_words(all, grammar_enabled)) by {
            assert forall|w: Seq<char>|
                words.to_set().contains(w) <==> shown_words(all, grammar_enabled).contains(w) by {
                assert(words.to_set().contains(w) <==> words.contains(w));
            }
        }
        words.unique_seq_to_set();
    }
    seen.len()
}

/// The message of the status row: how many different words are flagged, of
/// the issues that are shown at all.
pub fn format_count(matcher: &EchoMatcher, grammar_enabled: bool) -> (r: String)
    ensures
        r@ == count_text(shown_words(matcher@.lints, grammar_enabled).len()),
{
    let n: usize = count_words(matcher, grammar_enabled);
    let mut s = String::new();
    if n == 0 {
        return s;
    }
    s.append("tuipo · ");
    push_number(&mut s, n as u64);
    if n == 1 {
        s.append(" issue");
    } else {
        s.append(" issues");
    }
    s.append(" · Tab to fix");
    proof {
        assert(s@ =~= count_text(n as nat));
    }
    s
}

/// Cuts a text to a number of columns, taking each character as one.
pub fn truncate_to_width(s: &str, max_cols: usize) -> (r: String)
    ensures
        r@ == cut(s@, max_cols as int),
{
    let n: usize = s.unicode_len();
    if n <= max_cols {
        s.to_owned()
    } else {
        let r = s.substring_char(0, max_cols).to_owned();
        proof {
            assert(r@ =~= s@.take(max_cols as int));
        }
        r
    }
}

/// The bytes of the status row. Empty where painting or the row is off, and
/// where there is no issue.
pub fn build_status(matcher: &EchoMatcher, screen: &ScreenState, settings: &Settings) -> (r: Vec<u8>)
    ensures
        r@ == encode_utf8(status_text(matcher@, *screen, *settings)),
{
    let mut out: Vec<u8> = Vec::new();
    proof {
        assert(encode_utf8(Seq::<char>::empty()) =~= Seq::<u8>::empty());
    }
    if !crate::paint::paint_active(settings) || !settings.status_row {
        return out;
    }
    let text = format_count(matcher, settings.grammar);
    proof {
        reveal_strlit("tuipo · ");
    }
    if text.as_str().is_empty() {
        return out;
    }
    let mut s = String::new();
    s.append("\x1b7\x1b[");
    push_number(&mut s, screen.rows as u64);
    s.append(";1H\x1b[2K\x1b[2;36m");
    s.append(truncate_to_width(text.as_str(), screen.cols as usize).as_str());
    s.append("\x1b[0m\x1b8");
    proof {
        assert(s@ =~= status_text(matcher@, *screen, *settings));
    }
    push_text(&mut out, s.as_str());
    proof {
        assert(out@ =~= encode_utf8(s@));
    }
    out
}

/// With painting off the overlay is silent, and without issues the row is.
pub proof fn status_is_silent(m: EchoModel, screen: ScreenState, settings: Settings)
    requires
        !settings.paint || !settings.status_row || forall|i: int|
            0 <= i < m.lints.len() ==> !actionable(
                (#[trigger] m.lints[i]).category,
                settings.grammar,
            ),
    ensures
        status_text(m, screen, settings).len() == 0,
{
    if settings.paint && settings.status_row {
        assert(shown_words(m.lints, settings.grammar) =~= Set::<Seq<char>>::empty());
    }
}

/// The count is of different words: one more issue counts exactly where it is
/// shown and no issue before it has the same word.
pub proof fn each_word_counts_once(lints: Seq<IssueView>, issue: IssueView, grammar: bool)
    requires
        shown_words(lints, grammar).finite(),
    ensures
        ({
            let shown = issue.category == IssueCategory::Spelling || (issue.category
                == IssueCategory::Grammar && grammar);
            let known = exists|i: int|
                0 <= i < lints.len() && ((#[trigger] lints[i]).category == IssueCategory::Spelling
                    || (lints[i].category == IssueCategory::Grammar && grammar)) && lints[i].word
                    == issue.word;
            &&& shown_words(lints.push(issue), grammar).finite()
            &&& shown_words(lints.push(issue), grammar).len() == shown_words(lints, grammar).len()
                + if shown && !known {
                1nat
            } else {
                0nat
            }
        }),
{
    let all = lints.push(issue);
    let before = shown_words(lints, grammar);
    let after = shown_words(all, grammar);
    let n = lints.len() as int;
    assert(all[n] == issue);
    assert forall|w: Seq<char>|
        after.contains(w) <==> before.contains(w) || (actionable(issue.category, grammar) && w
            == issue.word) by {
        if before.contains(w) {
            let i = choose|i: int|
                0 <= i < lints.len() && actionable((#[trigger] lints[i]).category, grammar)
                    && lints[i].word == w;
            assert(all[i] == lints[i]);
        }
        if after.contains(w) {
            let i = choose|i: int|
                0 <= i < all.len() && actionable((#[trigger] all[i]).category, grammar)
                    && all[i].word == w;
            if i < n {
                assert(lints[i] == all[i]);
            }
        }
    }
    if actionable(issue.category, grammar) {
        assert(after =~= before.insert(issue.word));
        if before.contains(issue.word) {
            let i = choose|i: int|
                0 <= i < lints.len() && actionable((#[trigger] lints[i]).category, grammar)
                    && lints[i].word == issue.word;
            assert(lints[i].word == issue.word);
        }
    } else {
        assert(after =~= before);
    }
}

/// No issue, no word.
pub proof fn nothing_counts_as_zero(grammar: bool)
    ensures
        shown_words(Seq::empty(), grammar).finite(),
        shown_words(Seq::empty(), grammar).len() == 0,
{
    assert(shown_words(Seq::empty(), grammar) =~= Set::<Seq<char>>::empty());
}

/// A cut text is the beginning of the text, as much of it as there is room
/// for.
pub proof fn cut_keeps_the_beginning(s: Seq<char>, width: int)
    requires
        0 <= width,
    ensures
        cut(s, width).is_prefix_of(s),
        s.len() <= width ==> cut(s, width) == s,
        s.len() > width ==> cut(s, width).len() == width,
{
    assert(s.subrange(0, cut(s, width).len() as int) =~= cut(s, width));
}

/// With painting and the row on, a shown issue brings the row: it saves the
/// cursor first, shows the beginning of the message, and restores the cursor
/// last.
pub proof fn status_is_shown(m: EchoModel, screen: ScreenState, settings: Settings, i: int)
    requires
        settings.paint,
        settings.status_row,
        0 <= i < m.lints.len(),
        m.lints[i].category == IssueCategory::Spelling || (m.lints[i].category
            == IssueCategory::Grammar && settings.grammar),
        shown_words(m.lints, settings.grammar).finite(),
    ensures
        ({
            let text = status_text(m, screen, settings);
            let n = shown_words(m.lints, settings.grammar).len();
            &&& n > 0
            &&& seq!['\x1b', '7'].is_prefix_of(text)
            &&& seq!['\x1b', '8'] == text.skip(text.len() - 2)
            &&& exists|from: int, to: int|
                0 <= from <= to <= text.len() && #[trigger] text.subrange(from, to) == cut(
                    count_text(n),
                    screen.cols as int,
                )
        }),
{
    let words = shown_words(m.lints, settings.grammar);
    assert(actionable(m.lints[i].category, settings.grammar));
    assert(words.contains(m.lints[i].word));
    assert(words.len() > 0) by {
        if words.len() == 0 {
            assert(words =~= Set::<Seq<char>>::empty());
        }
    }
    let text = status_text(m, screen, settings);
    let a = "\x1b7\x1b["@;
    let b = number_text(screen.rows as nat);
    let c = ";1H\x1b[2K\x1b[2;36m"@;
    let d = cut(count_text(words.len()), screen.cols as int);
    let e = "\x1b[0m\x1b8"@;
    reveal_strlit("\x1b7\x1b[");
    reveal_strlit("\x1b[0m\x1b8");
    assert(text == a + b + c + d + e);
    assert(text.subrange(0, 2) =~= seq!['\x1b', '7']);
    assert(text.skip(text.len() - 2) =~= seq!['\x1b', '8']);
    let from = (a.len() + b.len() + c.len()) as int;
    let to = from + d.len();
    assert(text.subrange(from, to) =~= d);
}

/// The message says how many: between its two fixed parts stand the decimal
/// digits of the number, and one issue is not called several.
pub proof fn message_tells_the_number(n: nat)
    requires
        n > 0,
    ensures
        ({
            let text = count_text(n);
            let head = "tuipo \u{b7} "@;
            let end = head.len() + number_text(n).len();
            &&& head.is_prefix_of(text)
            &&& text.subrange(head.len() as int, end as int) == number_text(n)
            &&& n == 1 ==> text.skip(end as int) == " issue \u{b7} Tab to fix"@
            &&& n > 1 ==> text.skip(end as int) == " issues \u{b7} Tab to fix"@
        }),
{
    reveal_strlit("tuipo \u{b7} ");
    reveal_strlit("tuipo · ");
    reveal_strlit(" issue");
    reveal_strlit(" issues");
    reveal_strlit(" · Tab to fix");
    reveal_strlit(" issue \u{b7} Tab to fix");
    reveal_strlit(" issues \u{b7} Tab to fix");
    let text = count_text(n);
    let head = "tuipo \u{b7} "@;
    let end = head.len() + number_text(n).len();
    assert("tuipo · "@ =~= head);
    assert(text.subrange(0, head.len() as int) =~= head);
    assert(text.subrange(head.len() as int, end as int) =~= number_text(n));
    if n == 1 {
        assert(text.skip(end as int) =~= " issue \u{b7} Tab to fix"@);
    } else {
        assert(text.skip(end as int) =~= " issues \u{b7} Tab to fix"@);
    }
}

/// The row is the last one of the screen: the message is written from its
/// first column on.
pub proof fn status_stands_in_the_last_row(m: EchoModel, screen: ScreenState, settings: Settings)
    requires
        status_text(m, screen, settings).len() > 0,
    ensures
        (seq!['\x1b', '7', '\x1b', '['] + number_text(screen.rows as nat) + seq![
            ';',
            '1',
            'H',
        ]).is_prefix_of(status_text(m, screen, settings)),
{
    reveal_strlit("\x1b7\x1b[");
    reveal_strlit(";1H\x1b[2K\x1b[2;36m");
    let text = status_text(m, screen, settings);
    let head = seq!['\x1b', '7', '\x1b', '['] + number_text(screen.rows as nat) + seq![
        ';',
        '1',
        'H',
    ];
    assert(text.subrange(0, head.len() as int) =~= head);
}

} // verus!
