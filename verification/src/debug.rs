//! What the debug log says of a list of issues.

use crate::config::{number_text, push_number};
use crate::spell::{issues_view, texts, IssueView, SpellIssue};
use vstd::prelude::*;

verus! {

/// A text as the `Debug` form of `str` writes it: in quotes, with escapes.
pub uninterp spec fn debug_quoted(s: Seq<char>) -> Seq<char>;

/// The `Debug` form of `str`, by `format!` with `{:?}`: the text in double
/// quotes with special characters escaped. It depends on the text alone; the
/// escapes are named, not spelled out.
#[verifier::external_body]
fn quote(s: &str) -> (r: String)
    ensures
        r@ == debug_quoted(s@),
{
    format!("{:?}", s)
}

/// One issue: its word, byte range and best suggestion.
pub open spec fn issue_text(issue: IssueView) -> Seq<char> {
    issue.word + "@"@ + number_text(issue.byte_start as nat) + ".."@ + number_text(
        issue.byte_end as nat,
    ) + "→"@ + debug_quoted(
        if issue.suggestions.len() > 0 {
            issue.suggestions[0]
        } else {
            "-"@
        },
    )
}

/// The first `k` issues, with commas between them.
pub open spec fn list_text(issues: Seq<IssueView>, k: int) -> Seq<char>
    decreases k,
{
    if k <= 0 {
        Seq::empty()
    } else {
        list_text(issues, k - 1) + (if k > 1 {
            ", "@
        } else {
            Seq::empty()
        }) + issue_text(issues[k - 1])
    }
}

/// A list of issues in brackets.
pub fn format_issues(issues: &[SpellIssue]) -> (r: String)
    ensures
        r@ == "["@ + list_text(issues_view(issues@), issues@.len() as int) + "]"@,
{
    let ghost all = issues_view(issues@);
    let mut s = String::new();
    s.append("[");
    let mut i: usize = 0;
    proof {
        assert(s@ =~= "["@ + list_text(all, 0));
    }
    while i < issues.len()
        invariant
            all == issues_view(issues@),
            i <= issues@.len(),
            s@ == "["@ + list_text(all, i as int),
        decreases issues@.len() - i,
    {
        let issue = &issues[i];
        assert(all[i as int] == issue@);
        if i > 0 {
            s.append(", ");
        }
        let top: &str = if issue.suggestions.len() > 0 {
            assert(texts(issue.suggestions@)[0] == issue.suggestions@[0]@);
            issue.suggestions[0].as_str()
        } else {
            "-"
        };
        assert(issue@.suggestions.len() == issue.suggestions@.len());
        s.append(issue.word.as_str());
        s.append("@");
        push_number(&mut s, issue.byte_start as u64);
        s.append("..");
        push_number(&mut s, issue.byte_end as u64);
        s.append("→");
        s.append(quote(top).as_str());
        i += 1;
        proof {
            assert(s@ =~= "["@ + list_text(all, i as int));
        }
    }
    s.append("]");
    s
}

/// The log names every issue: each stands in the list with its word, its range
/// and its best suggestion.
pub proof fn every_issue_is_logged(issues: Seq<IssueView>, n: int, k: int)
    requires
        0 <= k < n <= issues.len(),
    ensures
        exists|from: int, to: int|
            0 <= from <= to <= list_text(issues, n).len() && #[trigger] list_text(
                issues,
                n,
            ).subrange(from, to) == issue_text(issues[k]),
    decreases n,
{
    let before = list_text(issues, n - 1);
    let all = list_text(issues, n);
    if k == n - 1 {
        let to = all.len() as int;
        let from = to - issue_text(issues[k]).len();
        assert(all.subrange(from, to) =~= issue_text(issues[k]));
    } else {
        every_issue_is_logged(issues, n - 1, k);
        let (from, to) = choose|from: int, to: int|
            0 <= from <= to <= before.len() && #[trigger] before.subrange(from, to) == issue_text(
                issues[k],
            );
        assert(all.subrange(from, to) =~= before.subrange(from, to));
        assert(all.subrange(from, to) == issue_text(issues[k]));
    }
}

/// An entry of the log begins with the word and ends with the quoted best
/// suggestion.
pub proof fn entry_names_word_and_suggestion(issue: IssueView)
    requires
        issue.suggestions.len() > 0,
    ensures
        ({
            let text = issue_text(issue);
            let top = debug_quoted(issue.suggestions[0]);
            &&& issue.word.is_prefix_of(text)
            &&& text.skip(text.len() - top.len()) == top
        }),
{
    let text = issue_text(issue);
    let top = debug_quoted(issue.suggestions[0]);
    assert(text.subrange(0, issue.word.len() as int) =~= issue.word);
    assert(text.skip(text.len() - top.len()) =~= top);
}

} // verus!
