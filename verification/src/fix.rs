//! Replaces a misspelling by keystrokes.
//!
//! With the cursor at the end of the buffer, backspaces go back over the
//! misspelling and everything after it, and the suggestion is typed with the
//! trailing text. With the cursor elsewhere, arrow keys bring it to the right
//! edge of the misspelling, backspaces remove just that, and the suggestion
//! alone is typed: the trailing text is never touched.

use crate::buffer::{is_content, is_printable, BufferModel, FeedOutcome};
use crate::input::InputState;
use crate::spell::{issues_view, texts, IssueCategory, IssueView, SpellIssue};
use crate::text::{chars_of, last_line_offset, last_line_start, last_line_start_props};
use crate::text::{same_text, string_of};
use vstd::prelude::*;
use vstd::utf8::encode_utf8;

verus! {

/// The keystrokes of a fix, in this order: `left_moves`, `right_moves`,
/// `backspaces`, `replacement_text`. At most one of the two move counts is
/// not zero.
#[derive(Debug, PartialEq, Eq)]
pub struct Fix {
    /// Left-arrow presses that bring the cursor back to the right edge of the
    /// misspelling.
    pub left_moves: usize,
    /// Right-arrow presses that bring the cursor forward to that edge.
    pub right_moves: usize,
    /// Backspace presses that delete the misspelling.
    pub backspaces: usize,
    /// What is typed afterwards.
    pub replacement_text: String,
    /// The misspelling.
    pub issue_word: String,
}

impl Clone for Fix {
    fn clone(&self) -> (r: Self)
        ensures
            r@ == self@,
    {
        Fix {
            left_moves: self.left_moves,
            right_moves: self.right_moves,
            backspaces: self.backspaces,
            replacement_text: self.replacement_text.clone(),
            issue_word: self.issue_word.clone(),
        }
    }
}

/// What a `Fix` holds.
#[verifier::ext_equal]
pub struct FixView {
    pub left_moves: int,
    pub right_moves: int,
    pub backspaces: int,
    pub replacement_text: Seq<char>,
    pub issue_word: Seq<char>,
}

impl View for Fix {
    type V = FixView;

    open spec fn view(&self) -> FixView {
        FixView {
            left_moves: self.left_moves as int,
            right_moves: self.right_moves as int,
            backspaces: self.backspaces as int,
            replacement_text: self.replacement_text@,
            issue_word: self.issue_word@,
        }
    }
}

/// The fix that replaces `issue` by `suggestion`. There is none where the
/// issue does not fit the text or starts before its last line: a fix there
/// would have to type a line feed, which submits the input.
pub open spec fn fix_for(buffer: BufferModel, issue: IssueView, suggestion: Seq<char>) -> Option<
    FixView,
> {
    let n = buffer.text.len();
    if issue.char_end > n || issue.char_start < last_line_start(buffer.text) {
        None
    } else if buffer.cursor == n {
        Some(
            FixView {
                left_moves: 0,
                right_moves: 0,
                backspaces: n - issue.char_start,
                replacement_text: suggestion + buffer.text.skip(issue.char_end),
                issue_word: issue.word,
            },
        )
    } else {
        Some(
            FixView {
                left_moves: if buffer.cursor < issue.char_end {
                    0
                } else {
                    buffer.cursor - issue.char_end
                },
                right_moves: if buffer.cursor < issue.char_end {
                    issue.char_end - buffer.cursor
                } else {
                    0
                },
                backspaces: issue.char_end - issue.char_start,
                replacement_text: suggestion,
                issue_word: issue.word,
            },
        )
    }
}

/// Whether an issue is a misspelling that ends by `end`.
pub open spec fn is_misspelling_by(issue: IssueView, end: int) -> bool {
    issue.category == IssueCategory::Spelling && issue.char_end <= end
}

/// Whether the issue at `i` is the one to fix: among the misspellings that end
/// by `end`, the one that starts last, and of several such the first.
pub open spec fn is_latest(issues: Seq<IssueView>, end: int, i: int) -> bool {
    &&& 0 <= i < issues.len()
    &&& is_misspelling_by(issues[i], end)
    &&& forall|j: int|
        0 <= j < issues.len() && is_misspelling_by(#[trigger] issues[j], end)
            ==> issues[j].char_start < issues[i].char_start || (issues[j].char_start
            == issues[i].char_start && i <= j)
}

/// The misspelling that Tab fixes; only with the cursor at the end of the text.
pub open spec fn fixable(buffer: BufferModel, issues: Seq<IssueView>) -> Option<IssueView> {
    let n = buffer.text.len() as int;
    if buffer.cursor == n && exists|i: int| is_latest(issues, n, i) {
        Some(issues[choose|i: int| is_latest(issues, n, i)])
    } else {
        None
    }
}

/// The fix that Tab applies: the first suggestion for the fixable issue,
/// unless it is empty or the word itself.
pub open spec fn tab_fix(buffer: BufferModel, issues: Seq<IssueView>) -> Option<FixView> {
    match fixable(buffer, issues) {
        Some(issue) => if issue.suggestions.len() == 0 || issue.suggestions[0].len() == 0
            || issue.suggestions[0] == issue.word {
            None
        } else {
            fix_for(buffer, issue, issue.suggestions[0])
        },
        None => None,
    }
}

pub open spec fn fix_view(fix: Option<Fix>) -> Option<FixView> {
    match fix {
        Some(f) => Some(f@),
        None => None,
    }
}

/// The fix for the most recent misspelling, where there is one.
pub fn try_tab_fix(state: &InputState) -> (r: Option<Fix>)
    requires
        state.wf(),
    ensures
        fix_view(r) == tab_fix(state@.buffer, state@.issues),
{
    let issue = match find_fixable_issue(state) {
        Some(issue) => issue,
        None => return None,
    };
    if issue.suggestions.len() == 0 {
        return None;
    }
    let suggestion = &issue.suggestions[0];
    proof {
        assert(texts(issue.suggestions@)[0] == suggestion@);
        assert(issue@.suggestions.len() == issue.suggestions@.len());
    }
    if suggestion.as_str().is_empty() || same_text(suggestion.as_str(), issue.word.as_str()) {
        return None;
    }
    build_fix(state, issue, suggestion.as_str())
}

/// The misspelling that was typed last, looked for only while the cursor is at the
/// end of the buffer.
pub fn find_fixable_issue(state: &InputState) -> (r: Option<&SpellIssue>)
    requires
        state.wf(),
    ensures
        match r {
            Some(issue) => fixable(state@.buffer, state@.issues) == Some(issue@)
                && state@.issues.contains(issue@),
            None => fixable(state@.buffer, state@.issues) is None,
        },
{
    let n: usize = state.buffer().text().unicode_len();
    if state.buffer().char_cursor() != n {
        return None;
    }
    pick_issue(state.issues(), n)
}

fn pick_issue(issues: &[SpellIssue], end: usize) -> (r: Option<&SpellIssue>)
    ensures
        match r {
            Some(issue) => exists|i: int| #[trigger]
                is_latest(issues_view(issues@), end as int, i) && issues_view(issues@)[i]
                    == issue@ && i == (choose|i: int|
                    is_latest(issues_view(issues@), end as int, i)),
            None => forall|i: int| !is_latest(issues_view(issues@), end as int, i),
        },
{
    let ghost all = issues_view(issues@);
    let mut best: Option<usize> = None;
    let mut i: usize = 0;
    while i < issues.len()
        invariant
            i <= issues@.len(),
            all == issues_view(issues@),
            match best {
                Some(b) => b < i && is_misspelling_by(all[b as int], end as int) && forall|j: int|
                    0 <= j < i && is_misspelling_by(#[trigger] all[j], end as int)
                        ==> all[j].char_start < all[b as int].char_start || (all[j].char_start
                        == all[b as int].char_start && b <= j),
                None => forall|j: int|
                    0 <= j < i ==> !is_misspelling_by(#[trigger] all[j], end as int),
            },
        decreases issues@.len() - i,
    {
        let issue = &issues[i];
        assert(issue@ == all[i as int]);
        if issue.category == IssueCategory::Spelling && issue.char_end <= end {
            match best {
                Some(b) => {
                    assert(issues@[b as int]@ == all[b as int]);
                    if issues[b].char_start < issue.char_start {
                        best = Some(i);
                    }
                },
                None => {
                    best = Some(i);
                },
            }
        }
        i += 1;
    }
    match best {
        Some(b) => {
            proof {
                assert(is_latest(all, end as int, b as int));
                let c = choose|i: int| is_latest(all, end as int, i);
                assert(is_misspelling_by(all[c], end as int));
                assert(is_misspelling_by(all[b as int], end as int));
                assert(c == b as int);
            }
            Some(&issues[b])
        },
        None => None,
    }
}

/// The suggestions of an issue in order, without empty ones, repetitions and
/// the word itself.
pub open spec fn distinct_suggestions(suggestions: Seq<Seq<char>>, word: Seq<char>) -> Seq<
    Seq<char>,
>
    decreases suggestions.len(),
{
    if suggestions.len() == 0 {
        Seq::empty()
    } else {
        let before = distinct_suggestions(suggestions.drop_last(), word);
        let s = suggestions.last();
        if s.len() == 0 || s == word || before.contains(s) {
            before
        } else {
            before.push(s)
        }
    }
}

/// The first `max` of a sequence, or all of a shorter one.
pub open spec fn first_of<A>(s: Seq<A>, max: int) -> Seq<A> {
    if s.len() <= max {
        s
    } else {
        s.take(max)
    }
}

/// Up to `max` suggestions for an issue, best first, none of them twice.
pub fn top_suggestions(issue: &SpellIssue, max: usize) -> (r: Vec<String>)
    ensures
        texts(r@) == first_of(
            distinct_suggestions(issue@.suggestions, issue@.word),
            max as int,
        ),
{
    let ghost all = texts(issue.suggestions@);
    let mut out: Vec<String> = Vec::new();
    let mut i: usize = 0;
    proof {
        assert(texts(out@) =~= Seq::<Seq<char>>::empty());
        assert(all.take(0) =~= Seq::<Seq<char>>::empty());
    }
    while i < issue.suggestions.len()
        invariant
            i <= issue.suggestions@.len(),
            all == texts(issue.suggestions@),
            texts(out@) == first_of(
                distinct_suggestions(all.take(i as int), issue.word@),
                max as int,
            ),
        decreases issue.suggestions@.len() - i,
    {
        let s = &issue.suggestions[i];
        let ghost before = out@;
        let ghost seen = distinct_suggestions(all.take(i as int), issue.word@);
        proof {
            assert(all.take(i + 1).drop_last() =~= all.take(i as int));
            assert(all.take(i + 1).last() == s@);
            assert(seen.push(s@).take(max as int) =~= seen.take(max as int) || seen.len() < max);
            assert(out@.len() == texts(out@).len());
        }
        if out.len() < max && !s.as_str().is_empty() && !same_text(s.as_str(), issue.word.as_str())
            && !holds(&out, s.as_str()) {
            out.push(s.clone());
            proof {
                assert(texts(out@) =~= texts(before).push(s@));
            }
        }
        i += 1;
    }
    proof {
        assert(all.take(i as int) =~= all);
    }
    out
}

fn holds(strings: &Vec<String>, s: &str) -> (r: bool)
    ensures
        r == texts(strings@).contains(s@),
{
    let mut i: usize = 0;
    while i < strings.len()
        invariant
            i <= strings@.len(),
            forall|j: int| 0 <= j < i ==> texts(strings@)[j] != s@,
        decreases strings@.len() - i,
    {
        if same_text(strings[i].as_str(), s) {
            assert(texts(strings@)[i as int] == s@);
            return true;
        }
        i += 1;
    }
    false
}

/// Builds the fix that replaces `issue` by `suggestion` in the current
/// buffer.
pub fn build_fix(state: &InputState, issue: &SpellIssue, suggestion: &str) -> (r: Option<Fix>)
    requires
        state.wf(),
        ({
            let n = state@.buffer.text.len();
            issue.char_end <= n && last_line_start(state@.buffer.text) <= issue.char_start ==> (
            if state@.buffer.cursor == n {
                issue.char_start <= n
            } else {
                issue.char_start <= issue.char_end
            })
        }),
    ensures
        fix_view(r) == fix_for(state@.buffer, issue@, suggestion@),
{
    let text = chars_of(state.buffer().text());
    let n: usize = text.len();
    if issue.char_end > n || issue.char_start < last_line_offset(text.as_slice()) {
        return None;
    }
    let cursor: usize = state.buffer().char_cursor();
    if cursor == n {
        let mut replacement = suggestion.to_owned();
        let trailing = string_of(vstd::slice::slice_subrange(text.as_slice(), issue.char_end, n));
        replacement.append(trailing.as_str());
        proof {
            assert(trailing@ =~= state@.buffer.text.skip(issue.char_end as int));
        }
        return Some(
            Fix {
                left_moves: 0,
                right_moves: 0,
                backspaces: n - issue.char_start,
                replacement_text: replacement,
                issue_word: issue.word.clone(),
            },
        );
    }
    let (left_moves, right_moves): (usize, usize) = if cursor < issue.char_end {
        (0, issue.char_end - cursor)
    } else {
        (cursor - issue.char_end, 0)
    };
    Some(
        Fix {
            left_moves,
            right_moves,
            backspaces: issue.char_end - issue.char_start,
            replacement_text: suggestion.to_owned(),
            issue_word: issue.word.clone(),
        },
    )
}

/// `key` pressed `count` times.
pub open spec fn repeated(key: Seq<u8>, count: int) -> Seq<u8>
    decreases count,
{
    if count <= 0 {
        Seq::empty()
    } else {
        repeated(key, count - 1) + key
    }
}

pub open spec fn left_key() -> Seq<u8> {
    seq![0x1Bu8, 0x5B, 0x44]
}

pub open spec fn right_key() -> Seq<u8> {
    seq![0x1Bu8, 0x5B, 0x43]
}

pub open spec fn backspace_key() -> Seq<u8> {
    seq![0x08u8]
}

/// All the keystrokes of a fix.
pub open spec fn keystrokes(fix: FixView) -> Seq<u8> {
    repeated(left_key(), fix.left_moves) + repeated(right_key(), fix.right_moves) + repeated(
        backspace_key(),
        fix.backspaces,
    ) + encode_utf8(fix.replacement_text)
}

/// One arrow press moves the cursor by one and leaves the text alone.
proof fn one_arrow(m: BufferModel, left: bool)
    requires
        m.wf(),
        m.is_ground(),
        left ==> 0 < m.cursor,
        !left ==> m.cursor < m.text.len(),
    ensures
        ({
            let (after, outcome) = m.fed_all(if left { left_key() } else { right_key() });
            &&& after.wf()
            &&& after.is_ground()
            &&& after.text == m.text
            &&& after.cursor == if left { m.cursor - 1 } else { m.cursor + 1 }
            &&& outcome != FeedOutcome::Boundary
        }),
{
    let key = if left {
        left_key()
    } else {
        right_key()
    };
    let m1 = m.fed(0x1B).0;
    let m2 = m1.fed(0x5B).0;
    let m3 = m2.fed(key[2]).0;
    assert(m.fed_all(key) == (m3, m2.fed(key[2]).1)) by {
        reveal_with_fuel(BufferModel::fed_all, 4);
        assert(key.drop_last() =~= seq![0x1Bu8, 0x5B]);
        assert(key.drop_last().drop_last() =~= seq![0x1Bu8]);
        assert(key.drop_last().drop_last().drop_last() =~= Seq::<u8>::empty());
    }
}

/// Arrow presses move the cursor and leave the text alone.
proof fn arrows_move(m: BufferModel, left: bool, count: int)
    requires
        m.wf(),
        m.is_ground(),
        0 <= count,
        left ==> count <= m.cursor,
        !left ==> m.cursor + count <= m.text.len(),
    ensures
        ({
            let (after, outcome) = m.fed_all(
                repeated(if left { left_key() } else { right_key() }, count),
            );
            &&& after.wf()
            &&& after.is_ground()
            &&& after.text == m.text
            &&& after.cursor == if left { m.cursor - count } else { m.cursor + count }
            &&& outcome != FeedOutcome::Boundary
        }),
    decreases count,
{
    if count > 0 {
        let key = if left {
            left_key()
        } else {
            right_key()
        };
        arrows_move(m, left, count - 1);
        let mid = m.fed_all(repeated(key, count - 1)).0;
        crate::buffer::fed_all_concat(m, repeated(key, count - 1), key);
        one_arrow(mid, left);
    }
}

/// Backspaces take out the characters before the cursor.
proof fn backspaces_delete(m: BufferModel, count: int)
    requires
        m.wf(),
        m.is_ground(),
        0 <= count <= m.cursor,
    ensures
        ({
            let (after, outcome) = m.fed_all(repeated(backspace_key(), count));
            &&& after.wf()
            &&& after.is_ground()
            &&& after.text == m.text.take(m.cursor - count) + m.text.skip(m.cursor)
            &&& after.cursor == m.cursor - count
            &&& outcome != FeedOutcome::Boundary
        }),
    decreases count,
{
    if count == 0 {
        assert(m.text.take(m.cursor) + m.text.skip(m.cursor) =~= m.text);
    } else {
        backspaces_delete(m, count - 1);
        let mid = m.fed_all(repeated(backspace_key(), count - 1)).0;
        crate::buffer::fed_all_concat(m, repeated(backspace_key(), count - 1), backspace_key());
        reveal_with_fuel(BufferModel::fed_all, 2);
        assert(backspace_key().drop_last() =~= Seq::<u8>::empty());
        let after = mid.fed(0x08).0;
        crate::buffer::fed_keeps_wf(mid, 0x08);
        assert(mid.fed_all(backspace_key()).0 == after);
        assert(after.text =~= m.text.take(m.cursor - count) + m.text.skip(m.cursor));
    }
}

/// What is left of the misspelling and what is typed make up the new text.
proof fn joined(
    text: Seq<char>,
    start: int,
    end: int,
    edge: int,
    suggestion: Seq<char>,
    typed: Seq<char>,
)
    requires
        0 <= start <= end <= edge <= text.len(),
        (edge == end && typed == suggestion) || (edge == text.len() && typed == suggestion
            + text.skip(end)),
    ensures
        ({
            let left = text.take(start) + text.skip(edge);
            left.take(start) + typed + left.skip(start) == text.take(start) + suggestion
                + text.skip(end)
        }),
{
    let left = text.take(start) + text.skip(edge);
    assert(left.take(start) + typed + left.skip(start) =~= text.take(start) + suggestion
        + text.skip(end));
}

/// The promise of a fix: typing its keystrokes replaces the misspelling by the
/// suggestion, keeps everything around it, and submits nothing. The cursor
/// ends at the end of the text where it was there before, else behind the
/// suggestion.
pub proof fn fix_replaces_span(buffer: BufferModel, issue: IssueView, suggestion: Seq<char>)
    requires
        buffer.wf(),
        buffer.is_ground(),
        0 <= issue.char_start <= issue.char_end,
        forall|i: int| 0 <= i < suggestion.len() ==> is_printable(#[trigger] suggestion[i]),
        fix_for(buffer, issue, suggestion) is Some,
    ensures
        ({
            let fix = fix_for(buffer, issue, suggestion)->0;
            let (after, outcome) = buffer.fed_all(keystrokes(fix));
            &&& after.text == buffer.text.take(issue.char_start) + suggestion + buffer.text.skip(
                issue.char_end,
            )
            &&& after.cursor == if buffer.cursor == buffer.text.len() {
                after.text.len() as int
            } else {
                issue.char_start + suggestion.len()
            }
            &&& after.is_ground()
            &&& outcome != FeedOutcome::Boundary
        }),
{
    let fix = fix_for(buffer, issue, suggestion)->0;
    let lefts = repeated(left_key(), fix.left_moves);
    let rights = repeated(right_key(), fix.right_moves);
    let backs = repeated(backspace_key(), fix.backspaces);
    let typed = encode_utf8(fix.replacement_text);
    last_line_start_props(buffer.text);
    let m1 = buffer.fed_all(lefts).0;
    arrows_move(buffer, true, fix.left_moves);
    let m2 = m1.fed_all(rights).0;
    arrows_move(m1, false, fix.right_moves);
    let m3 = m2.fed_all(backs).0;
    backspaces_delete(m2, fix.backspaces);
    let edge = m2.cursor;
    assert(edge == if buffer.cursor == buffer.text.len() {
        buffer.cursor
    } else {
        issue.char_end
    });
    assert forall|i: int| 0 <= i < fix.replacement_text.len() implies is_printable(
        #[trigger] fix.replacement_text[i],
    ) by {
        if i >= suggestion.len() {
            let j = i - suggestion.len() + issue.char_end;
            assert(fix.replacement_text[i] == buffer.text[j]);
            assert(is_content(buffer.text[j]));
        }
    }
    crate::buffer::typed_text_is_inserted(m3, fix.replacement_text);
    let after = m3.fed_all(typed).0;
    assert(buffer.fed_all(keystrokes(fix)).0 == after && buffer.fed_all(keystrokes(fix)).1
        != FeedOutcome::Boundary) by {
        crate::buffer::fed_all_concat(buffer, lefts, rights);
        crate::buffer::fed_all_concat(buffer, lefts + rights, backs);
        crate::buffer::fed_all_concat(buffer, lefts + rights + backs, typed);
    }
    joined(buffer.text, issue.char_start, issue.char_end, edge, suggestion, fix.replacement_text);
}

/// Whether an issue starts on the last line of a text and ends within the
/// text.
pub open spec fn is_on_last_line(text: Seq<char>, issue: IssueView) -> bool {
    &&& 0 <= issue.char_start <= issue.char_end <= text.len()
    &&& forall|k: int| issue.char_start <= k < text.len() ==> (#[trigger] text[k]) != '\n'
}

/// There is a fix for every issue on the last line, whatever the suggestion,
/// and for none that starts before it or ends behind the text.
pub proof fn issues_on_the_last_line_can_be_fixed(
    buffer: BufferModel,
    issue: IssueView,
    suggestion: Seq<char>,
)
    requires
        0 <= issue.char_start <= issue.char_end,
    ensures
        fix_for(buffer, issue, suggestion) is Some <==> is_on_last_line(buffer.text, issue),
        fix_for(buffer, issue, suggestion) matches Some(fix) ==> fix.issue_word == issue.word,
{
    last_line_start_props(buffer.text);
    let k = last_line_start(buffer.text);
    if issue.char_end <= buffer.text.len() && issue.char_start < k {
        assert(buffer.text[k - 1] == '\n');
    }
}

/// Whether an issue has a first suggestion that says something new.
pub open spec fn has_top_suggestion(issue: IssueView) -> bool {
    &&& issue.suggestions.len() > 0
    &&& issue.suggestions[0].len() > 0
    &&& issue.suggestions[0] != issue.word
}

/// With the cursor at the end of the text, Tab fixes the misspelling that
/// starts last, whatever else is wrong with the text: it deletes from there to
/// the end and types the first suggestion and what stood behind the word. All
/// that it needs is that the misspelling is on the last line and has a first
/// suggestion other than itself, shorter or longer.
pub proof fn latest_misspelling_is_fixed(buffer: BufferModel, issues: Seq<IssueView>, i: int)
    requires
        buffer.cursor == buffer.text.len(),
        0 <= i < issues.len(),
        issues[i].category == IssueCategory::Spelling,
        is_on_last_line(buffer.text, issues[i]),
        has_top_suggestion(issues[i]),
        forall|j: int|
            0 <= j < issues.len() && j != i && (#[trigger] issues[j]).category
                == IssueCategory::Spelling ==> issues[j].char_start < issues[i].char_start
                || issues[j].char_end > buffer.text.len(),
    ensures
        ({
            let n = buffer.text.len();
            let issue = issues[i];
            tab_fix(buffer, issues) == Some(
                FixView {
                    left_moves: 0,
                    right_moves: 0,
                    backspaces: n - issue.char_start,
                    replacement_text: issue.suggestions[0] + buffer.text.skip(issue.char_end),
                    issue_word: issue.word,
                },
            )
        }),
{
    let n = buffer.text.len() as int;
    assert(is_latest(issues, n, i)) by {
        assert(is_misspelling_by(issues[i], n));
    }
    let c = choose|c: int| is_latest(issues, n, c);
    assert(is_latest(issues, n, c));
    assert(c == i) by {
        assert(is_misspelling_by(issues[c], n));
        assert(is_misspelling_by(issues[i], n));
    }
    issues_on_the_last_line_can_be_fixed(buffer, issues[i], issues[i].suggestions[0]);
}

/// Two findings on one span do not stand in each other's way: where several
/// misspellings start last, all on the last line and all with a first
/// suggestion, one of them is fixed.
pub proof fn a_latest_misspelling_is_fixed(buffer: BufferModel, issues: Seq<IssueView>, i: int)
    requires
        buffer.cursor == buffer.text.len(),
        0 <= i < issues.len(),
        issues[i].category == IssueCategory::Spelling,
        issues[i].char_end <= buffer.text.len(),
        forall|j: int|
            0 <= j < issues.len() && (#[trigger] issues[j]).category == IssueCategory::Spelling
                && issues[j].char_end <= buffer.text.len() ==> issues[j].char_start
                < issues[i].char_start || (issues[j].char_start == issues[i].char_start
                && is_on_last_line(buffer.text, issues[j]) && has_top_suggestion(issues[j])),
    ensures
        tab_fix(buffer, issues) matches Some(fix) && fix.backspaces == buffer.text.len()
            - issues[i].char_start,
{
    let n = buffer.text.len() as int;
    latest_exists(issues, n, issues.len() as int, i);
    let c = choose|c: int| is_latest(issues, n, c);
    assert(is_latest(issues, n, c));
    assert(is_misspelling_by(issues[i], n));
    assert(is_misspelling_by(issues[c], n));
    assert(issues[c].char_start == issues[i].char_start);
    issues_on_the_last_line_can_be_fixed(buffer, issues[c], issues[c].suggestions[0]);
}

/// Among the first `k` issues one is the latest misspelling, if there is any.
proof fn latest_exists(issues: Seq<IssueView>, end: int, k: int, i: int)
    requires
        0 <= i < k <= issues.len(),
        issues[i].category == IssueCategory::Spelling,
        issues[i].char_end <= end,
    ensures
        k == issues.len() ==> exists|c: int| is_latest(issues, end, c),
        exists|c: int| #[trigger] is_latest(issues.take(k), end, c),
    decreases k,
{
    let all = issues.take(k);
    let last = k - 1;
    if exists|j: int| 0 <= j < last && is_misspelling_by(#[trigger] issues[j], end) {
        let j = choose|j: int| 0 <= j < last && is_misspelling_by(#[trigger] issues[j], end);
        latest_exists(issues, end, last, j);
        let c = choose|c: int| #[trigger] is_latest(issues.take(last), end, c);
        let part = issues.take(last);
        assert(forall|x: int| 0 <= x < last ==> part[x] == issues[x]);
        assert(forall|x: int| 0 <= x < k ==> all[x] == issues[x]);
        let d = if is_misspelling_by(issues[last], end) && part[c].char_start
            < issues[last].char_start {
            last
        } else {
            c
        };
        assert forall|x: int|
            0 <= x < all.len() && is_misspelling_by(#[trigger] all[x], end) implies all[x].char_start
            < all[d].char_start || (all[x].char_start == all[d].char_start && d <= x) by {
            if x < last {
                assert(is_misspelling_by(part[x], end));
            }
        }
        assert(is_latest(all, end, d));
    } else {
        assert(forall|x: int| 0 <= x < k ==> all[x] == issues[x]);
        assert(i == last) by {
            if i < last {
                assert(is_misspelling_by(issues[i], end));
            }
        }
        assert(is_latest(all, end, last));
    }
    if k == issues.len() {
        assert(all =~= issues);
    }
}

/// Tab fixes nothing with the cursor elsewhere, or without a misspelling in
/// the text.
pub proof fn nothing_else_is_fixed(buffer: BufferModel, issues: Seq<IssueView>)
    requires
        buffer.cursor != buffer.text.len() || forall|j: int|
            0 <= j < issues.len() ==> (#[trigger] issues[j]).category != IssueCategory::Spelling
                || issues[j].char_end > buffer.text.len(),
    ensures
        tab_fix(buffer, issues) is None,
{
}

/// The suggestions on offer are those of the issue, without empty ones and the
/// word itself, each once: none is left out, none is added.
pub proof fn suggestions_are_offered_once(
    suggestions: Seq<Seq<char>>,
    word: Seq<char>,
    s: Seq<char>,
)
    ensures
        distinct_suggestions(suggestions, word).contains(s) <==> suggestions.contains(s) && s.len()
            > 0 && s != word,
        distinct_suggestions(suggestions, word).no_duplicates(),
        distinct_suggestions(suggestions, word).len() <= suggestions.len(),
    decreases suggestions.len(),
{
    if suggestions.len() > 0 {
        let init = suggestions.drop_last();
        let last = suggestions.last();
        let before = distinct_suggestions(init, word);
        let all = distinct_suggestions(suggestions, word);
        suggestions_are_offered_once(init, word, s);
        suggestions_are_offered_once(init, word, last);
        assert(suggestions =~= init.push(last));
        assert(suggestions.contains(s) <==> init.contains(s) || s == last) by {
            if init.contains(s) {
                let i = init.index_of(s);
                assert(suggestions[i] == s);
            }
            if s == last {
                assert(suggestions[suggestions.len() - 1] == s);
            }
            if suggestions.contains(s) && s != last {
                let i = suggestions.index_of(s);
                assert(init[i] == s);
            }
        }
        if all != before {
            assert(all =~= before.push(last));
            if before.contains(s) {
                let i = before.index_of(s);
                assert(all[i] == s);
            }
            assert(all[before.len() as int] == last);
            if all.contains(s) && s != last {
                let i = all.index_of(s);
                assert(before[i] == s);
            }
        }
    }
}

/// Suggestions keep their order, and a first good one stays first.
pub proof fn suggestions_keep_their_order(
    first: Seq<Seq<char>>,
    more: Seq<Seq<char>>,
    word: Seq<char>,
)
    ensures
        distinct_suggestions(first, word).is_prefix_of(distinct_suggestions(first + more, word)),
        first.len() == 1 && first[0].len() > 0 && first[0] != word ==> distinct_suggestions(
            first,
            word,
        ) == first,
    decreases more.len(),
{
    if first.len() == 1 {
        assert(first.drop_last() =~= Seq::<Seq<char>>::empty());
        assert(distinct_suggestions(first.drop_last(), word) =~= Seq::<Seq<char>>::empty());
        if first[0].len() > 0 && first[0] != word {
            assert(distinct_suggestions(first, word) =~= first);
        }
    }
    if more.len() == 0 {
        assert(first + more =~= first);
    } else {
        suggestions_keep_their_order(first, more.drop_last(), word);
        assert((first + more).drop_last() =~= first + more.drop_last());
        let a = distinct_suggestions(first, word);
        let b = distinct_suggestions(first + more.drop_last(), word);
        let c = distinct_suggestions(first + more, word);
        assert(c.subrange(0, a.len() as int) =~= b.subrange(0, a.len() as int));
    }
}

/// At most so many are taken, the first ones, and all where there are fewer.
pub proof fn first_ones_are_taken<A>(s: Seq<A>, max: int)
    requires
        0 <= max,
    ensures
        first_of(s, max).is_prefix_of(s),
        first_of(s, max).len() == if s.len() < max {
            s.len() as int
        } else {
            max
        },
{
    assert(s.subrange(0, first_of(s, max).len() as int) =~= first_of(s, max));
}

} // verus!
