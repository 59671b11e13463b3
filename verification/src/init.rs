//! Installs the shell hook that wraps every new terminal session.
//!
//! The hook is one line under a marker comment. It does nothing inside a
//! wrapped session and where the program is gone, and otherwise replaces the
//! shell by a wrapped one.

use crate::text::{chars_of, contains_text, has_text, same_text, stands_at, string_of, text_at};
use crate::text::{is_white_space, run_start, skip_white, trim, trimmed};
use vstd::prelude::*;

verus! {

pub const MARKER: &'static str = "# tuipo — Grammarly-style spell-check for terminal TUIs";

/// Where the hook goes, and the hook itself.
#[derive(Debug, PartialEq, Eq)]
pub struct ShellHook {
    pub rc_path: String,
    pub hook_line: String,
}

/// What `tuipo init` has to do.
#[derive(Debug)]
pub enum InitPlan {
    /// The shell is none of those supported.
    UnknownShell,
    /// Show what would be added.
    DryRun,
    /// The hook is there already.
    AlreadyInstalled,
    /// Write this as the new content of the file.
    Install(String),
}

/// The hook line for a program path.
pub open spec fn hook_for(exe: Seq<char>) -> Seq<char> {
    "[[ -z \"$TUIPO_ACTIVE\" ]] && [[ -x \""@ + exe + "\" ]] && exec \""@ + exe
        + "\" -- \"$SHELL\""@
}

/// A file in a directory.
pub open spec fn path_in(dir: Seq<char>, name: Seq<char>) -> Seq<char> {
    if dir.len() == 0 {
        name
    } else if dir.last() == '/' {
        dir + name
    } else {
        dir + "/"@ + name
    }
}

/// Whether `$SHELL` names a shell, by itself or at the end of a path.
pub open spec fn names_shell(shell: Seq<char>, name: Seq<char>) -> bool {
    shell == name || stands_at(shell, "/"@ + name, shell.len() - name.len() - 1)
}

/// The file that a shell reads at its start; bash prefers `.bash_profile`
/// where there is one.
pub open spec fn rc_file(shell: Seq<char>, has_bash_profile: bool) -> Option<Seq<char>> {
    if names_shell(shell, "zsh"@) {
        Some(".zshrc"@)
    } else if names_shell(shell, "bash"@) {
        Some(
            if has_bash_profile {
                ".bash_profile"@
            } else {
                ".bashrc"@
            },
        )
    } else {
        None
    }
}

/// The hook line with the absolute path of the program in it, so that the hook
/// does not depend on `$PATH`.
pub fn zsh_bash_hook(exe_path: &str) -> (r: String)
    ensures
        r@ == hook_for(exe_path@),
{
    let mut s = String::new();
    s.append("[[ -z \"$TUIPO_ACTIVE\" ]] && [[ -x \"");
    s.append(exe_path);
    s.append("\" ]] && exec \"");
    s.append(exe_path);
    s.append("\" -- \"$SHELL\"");
    proof {
        assert(s@ =~= hook_for(exe_path@));
    }
    s
}

fn join_path(dir: &str, name: &str) -> (r: String)
    ensures
        r@ == path_in(dir@, name@),
{
    let n: usize = dir.unicode_len();
    if n == 0 {
        return name.to_owned();
    }
    let mut s = dir.to_owned();
    if dir.get_char(n - 1) != '/' {
        s.append("/");
    }
    s.append(name);
    s
}

fn is_shell(shell: &str, name: &str) -> (r: bool)
    ensures
        r == names_shell(shell@, name@),
{
    if same_text(shell, name) {
        return true;
    }
    let mut tail = String::new();
    tail.append("/");
    tail.append(name);
    let s = chars_of(shell);
    let t = chars_of(tail.as_str());
    proof {
        reveal_strlit("/");
        assert(t@ =~= "/"@ + name@);
    }
    if t.len() > s.len() {
        return false;
    }
    text_at(s.as_slice(), t.as_slice(), s.len() - t.len())
}

/// The hook for the user's shell and the file it goes to. None for a shell
/// that is not supported.
pub fn detect_shell(shell_env: &str, home: &str, exe_path: &str, has_bash_profile: bool) -> (r:
    Option<ShellHook>)
    ensures
        match r {
            Some(hook) => rc_file(shell_env@, has_bash_profile) matches Some(name)
                && hook.rc_path@ == path_in(home@, name) && hook.hook_line@ == hook_for(exe_path@),
            None => rc_file(shell_env@, has_bash_profile) is None,
        },
{
    let name: &str = if is_shell(shell_env, "zsh") {
        ".zshrc"
    } else if is_shell(shell_env, "bash") {
        if has_bash_profile {
            ".bash_profile"
        } else {
            ".bashrc"
        }
    } else {
        return None;
    };
    Some(ShellHook { rc_path: join_path(home, name), hook_line: zsh_bash_hook(exe_path) })
}

/// Index of the first line feed at or after `i`, or the length.
pub open spec fn line_end(s: Seq<char>, i: int) -> int
    decreases s.len() - i,
{
    if 0 <= i < s.len() && s[i] != '\n' {
        line_end(s, i + 1)
    } else {
        i
    }
}

pub open spec fn without_cr(line: Seq<char>) -> Seq<char> {
    if line.len() > 0 && line.last() == '\r' {
        line.drop_last()
    } else {
        line
    }
}

/// The lines of a text without their endings, LF or CR LF. The ending of the
/// last line may be missing.
pub open spec fn text_lines(s: Seq<char>) -> Seq<Seq<char>>
    decreases s.len(),
{
    if s.len() == 0 {
        Seq::empty()
    } else {
        let end = line_end(s, 0);
        if end < 0 || end >= s.len() {
            seq![s]
        } else {
            seq![without_cr(s.take(end))] + text_lines(s.skip(end + 1))
        }
    }
}

proof fn line_end_is(s: Seq<char>, from: int, end: int)
    requires
        0 <= from <= end <= s.len(),
        forall|j: int| from <= j < end ==> s[j] != '\n',
        end == s.len() || s[end] == '\n',
    ensures
        line_end(s, from) == end,
    decreases end - from,
{
    if from < end {
        line_end_is(s, from + 1, end);
    }
}

proof fn line_end_props(s: Seq<char>, from: int)
    requires
        0 <= from <= s.len(),
    ensures
        from <= line_end(s, from) <= s.len(),
        forall|j: int| from <= j < line_end(s, from) ==> s[j] != '\n',
        line_end(s, from) == s.len() || s[line_end(s, from)] == '\n',
    decreases s.len() - from,
{
    if from < s.len() && s[from] != '\n' {
        line_end_props(s, from + 1);
    }
}

pub open spec fn lines_view(lines: Seq<Vec<char>>) -> Seq<Seq<char>> {
    lines.map_values(|l: Vec<char>| l@)
}

/// Splits a text into its lines.
fn split_lines(text: &str) -> (r: Vec<Vec<char>>)
    ensures
        lines_view(r@) == text_lines(text@),
{
    let chars = chars_of(text);
    let n: usize = chars.len();
    let mut lines: Vec<Vec<char>> = Vec::new();
    let mut from: usize = 0;
    proof {
        assert(chars@.skip(0) =~= chars@);
        assert(lines_view(lines@) + text_lines(text@) =~= text_lines(text@));
    }
    while from < n
        invariant
            n == chars@.len(),
            chars@ == text@,
            from <= n,
            lines_view(lines@) + text_lines(chars@.skip(from as int)) == text_lines(text@),
        decreases n - from,
    {
        let ghost before = lines@;
        let ghost rest = chars@.skip(from as int);
        let mut to: usize = from;
        while to < n && chars[to] != '\n'
            invariant
                n == chars@.len(),
                from <= to <= n,
                forall|j: int| from <= j < to ==> chars@[j] != '\n',
            decreases n - to,
        {
            to += 1;
        }
        proof {
            line_end_is(rest, 0, to - from);
        }
        if to == n {
            lines.push(vstd::slice::slice_to_vec(vstd::slice::slice_subrange(chars.as_slice(), from, n)));
            proof {
                assert(lines@.last()@ =~= rest);
                assert(lines_view(lines@) =~= lines_view(before).push(rest));
                assert(lines_view(lines@) =~= text_lines(text@));
            }
            return lines;
        }
        let end: usize = if to > from && chars[to - 1] == '\r' {
            to - 1
        } else {
            to
        };
        lines.push(vstd::slice::slice_to_vec(vstd::slice::slice_subrange(chars.as_slice(), from, end)));
        proof {
            let line = without_cr(rest.take(to - from));
            assert(lines@.last()@ =~= line);
            assert(lines_view(lines@) =~= lines_view(before).push(line));
            assert(rest.skip(to - from + 1) =~= chars@.skip(to + 1));
            assert(lines_view(lines@) + text_lines(chars@.skip(to + 1)) =~= lines_view(before)
                + text_lines(rest));
        }
        from = to + 1;
    }
    proof {
        assert(chars@.skip(from as int) =~= Seq::<char>::empty());
        assert(lines_view(lines@) =~= text_lines(text@));
    }
    lines
}

pub open spec fn is_marker(line: Seq<char>) -> bool {
    trimmed(line) == MARKER@
}

/// Whether a line below a marker is a hook.
pub open spec fn is_marked_hook(line: Seq<char>) -> bool {
    has_text(trimmed(line), "TUIPO_ACTIVE"@) && has_text(trimmed(line), "exec"@)
}

/// Whether a line without a marker is a hook, of an older version or written
/// by hand.
pub open spec fn is_bare_hook(line: Seq<char>) -> bool {
    stands_at(trimmed(line), "[[ -z \"$TUIPO_ACTIVE\" ]]"@, 0) && has_text(
        trimmed(line),
        "tuipo"@,
    )
}

/// Whether the line at `i` belongs to an earlier installation.
pub open spec fn is_installed_line(lines: Seq<Seq<char>>, i: int) -> bool {
    is_marker(lines[i]) || if i > 0 && is_marker(lines[i - 1]) {
        is_marked_hook(lines[i])
    } else {
        is_bare_hook(lines[i])
    }
}

/// The user's own lines among the first `k`.
pub open spec fn own_lines(lines: Seq<Seq<char>>, k: int) -> Seq<Seq<char>>
    decreases k,
{
    if k <= 0 {
        Seq::empty()
    } else if is_installed_line(lines, k - 1) {
        own_lines(lines, k - 1)
    } else {
        own_lines(lines, k - 1).push(lines[k - 1])
    }
}

/// `lines` without the blank ones at the end.
pub open spec fn without_blank_tail(lines: Seq<Seq<char>>) -> Seq<Seq<char>>
    decreases lines.len(),
{
    if lines.len() > 0 && trimmed(lines.last()).len() == 0 {
        without_blank_tail(lines.drop_last())
    } else {
        lines
    }
}

/// Lines with line feeds between them.
pub open spec fn joined_lines(lines: Seq<Seq<char>>) -> Seq<char>
    decreases lines.len(),
{
    if lines.len() == 0 {
        Seq::empty()
    } else if lines.len() == 1 {
        lines[0]
    } else {
        joined_lines(lines.drop_last()).push('\n') + lines.last()
    }
}

/// The lines of a file that are the user's own, without blank ones at the end.
pub open spec fn kept_lines(content: Seq<char>) -> Seq<Seq<char>> {
    without_blank_tail(own_lines(text_lines(content), text_lines(content).len() as int))
}

/// Whether the line `i` belongs to an earlier installation.
fn is_installed(lines: &Vec<Vec<char>>, i: usize, after_marker: bool) -> (r: (bool, bool))
    requires
        i < lines@.len(),
        after_marker == (i > 0 && is_marker(lines_view(lines@)[i - 1])),
    ensures
        r.0 == is_installed_line(lines_view(lines@), i as int),
        r.1 == is_marker(lines_view(lines@)[i as int]),
{
    let ghost all = lines_view(lines@);
    assert(all[i as int] == lines@[i as int]@);
    let line = trim(lines[i].as_slice());
    let chars = line.as_slice();
    let text = string_of(chars);
    if same_text(text.as_str(), MARKER) {
        return (true, true);
    }
    if after_marker {
        let found = contains_text(chars, chars_of("TUIPO_ACTIVE").as_slice()) && contains_text(
            chars,
            chars_of("exec").as_slice(),
        );
        (found, false)
    } else {
        let found = text_at(chars, chars_of("[[ -z \"$TUIPO_ACTIVE\" ]]").as_slice(), 0)
            && contains_text(chars, chars_of("tuipo").as_slice());
        (found, false)
    }
}

/// Takes the hook lines of earlier installations and their markers out of the
/// content of a file, and blank lines off its end.
pub fn strip_old_hook(content: &str) -> (r: String)
    ensures
        r@ == joined_lines(kept_lines(content@)),
{
    let lines = split_lines(content);
    let ghost all = lines_view(lines@);
    let mut kept: Vec<Vec<char>> = Vec::new();
    let mut after_marker = false;
    let mut i: usize = 0;
    proof {
        assert(lines_view(kept@) =~= own_lines(all, 0));
    }
    while i < lines.len()
        invariant
            all == lines_view(lines@),
            i <= lines@.len(),
            after_marker == (i > 0 && is_marker(all[i - 1])),
            lines_view(kept@) == own_lines(all, i as int),
        decreases lines@.len() - i,
    {
        let ghost before = kept@;
        let (installed, marker) = is_installed(&lines, i, after_marker);
        if !installed {
            kept.push(vstd::slice::slice_to_vec(lines[i].as_slice()));
            proof {
                assert(lines_view(kept@) =~= lines_view(before).push(all[i as int]));
            }
        }
        after_marker = marker;
        i += 1;
    }
    let ghost own = lines_view(kept@);
    while kept.len() > 0 && trim(kept[kept.len() - 1].as_slice()).len() == 0
        invariant
            without_blank_tail(lines_view(kept@)) == without_blank_tail(own),
        decreases kept@.len(),
    {
        let ghost before = kept@;
        let _ = kept.pop();
        proof {
            assert(lines_view(before).drop_last() =~= lines_view(kept@));
        }
    }
    proof {
        assert(lines_view(kept@) == kept_lines(content@));
    }
    let ghost whole = lines_view(kept@);
    let mut out = String::new();
    let mut k: usize = 0;
    while k < kept.len()
        invariant
            whole == lines_view(kept@),
            k <= kept@.len(),
            out@ == joined_lines(whole.take(k as int)),
        decreases kept@.len() - k,
    {
        if k > 0 {
            out.push('\n');
        }
        let line = string_of(kept[k].as_slice());
        out.append(line.as_str());
        k += 1;
        proof {
            assert(whole.take(k as int).drop_last() =~= whole.take(k - 1));
            assert(whole[k - 1] == kept@[k - 1]@);
            assert(out@ =~= joined_lines(whole.take(k as int)));
        }
    }
    proof {
        assert(whole.take(k as int) =~= whole);
    }
    out
}

/// The new content of the file: the user's own lines, a blank line, the marker
/// and the hook.
pub open spec fn installed_content(existing: Seq<char>, hook: Seq<char>) -> Seq<char> {
    let own = joined_lines(kept_lines(existing));
    own + (if own.len() > 0 && own.last() != '\n' {
        "\n\n"@
    } else {
        "\n"@
    }) + MARKER@ + "\n"@ + hook + "\n"@
}

pub open spec fn has_arg(args: Seq<String>, arg: Seq<char>) -> bool {
    exists|i: int| 0 <= i < args.len() && (#[trigger] args[i])@ == arg
}

fn given(args: &[String], arg: &str) -> (r: bool)
    ensures
        r == has_arg(args@, arg@),
{
    let mut i: usize = 0;
    while i < args.len()
        invariant
            i <= args@.len(),
            forall|j: int| 0 <= j < i ==> (#[trigger] args@[j])@ != arg@,
        decreases args@.len() - i,
    {
        if same_text(args[i].as_str(), arg) {
            return true;
        }
        i += 1;
    }
    false
}

/// What an `InitPlan` asks for.
pub enum PlanView {
    UnknownShell,
    DryRun,
    AlreadyInstalled,
    Install(Seq<char>),
}

impl View for InitPlan {
    type V = PlanView;

    open spec fn view(&self) -> PlanView {
        match *self {
            InitPlan::UnknownShell => PlanView::UnknownShell,
            InitPlan::DryRun => PlanView::DryRun,
            InitPlan::AlreadyInstalled => PlanView::AlreadyInstalled,
            InitPlan::Install(content) => PlanView::Install(content@),
        }
    }
}

/// What is to be done for given arguments, the hook line for the user's shell
/// and what the file holds.
pub open spec fn plan_for(
    dry_run: bool,
    force: bool,
    hook: Option<Seq<char>>,
    existing: Seq<char>,
) -> PlanView {
    match hook {
        None => PlanView::UnknownShell,
        Some(line) => if dry_run {
            PlanView::DryRun
        } else if has_text(existing, line) && !force {
            PlanView::AlreadyInstalled
        } else {
            PlanView::Install(installed_content(existing, line))
        },
    }
}

/// Decides what `tuipo init` does, given its arguments, the hook for the
/// user's shell and what the file holds now. An installed hook is left alone
/// unless `--force` is given; `--dry-run` changes nothing.
pub fn run_init(args: &[String], hook: &Option<ShellHook>, existing: &str) -> (r: InitPlan)
    ensures
        r@ == plan_for(
            has_arg(args@, "--dry-run"@),
            has_arg(args@, "--force"@),
            match *hook {
                Some(h) => Some(h.hook_line@),
                None => None,
            },
            existing@,
        ),
        match r {
            InitPlan::UnknownShell => hook is None,
            InitPlan::DryRun => hook is Some && has_arg(args@, "--dry-run"@),
            InitPlan::AlreadyInstalled => hook is Some && !has_arg(args@, "--dry-run"@) && !has_arg(
                args@,
                "--force"@,
            ) && has_text(existing@, hook->0.hook_line@),
            InitPlan::Install(content) => hook is Some && !has_arg(args@, "--dry-run"@) && (has_arg(
                args@,
                "--force"@,
            ) || !has_text(existing@, hook->0.hook_line@)) && content@ == installed_content(
                existing@,
                hook->0.hook_line@,
            ),
        },
{
    let hook = match hook {
        Some(hook) => hook,
        None => return InitPlan::UnknownShell,
    };
    if given(args, "--dry-run") {
        return InitPlan::DryRun;
    }
    let present = contains_text(
        chars_of(existing).as_slice(),
        chars_of(hook.hook_line.as_str()).as_slice(),
    );
    if present && !given(args, "--force") {
        return InitPlan::AlreadyInstalled;
    }
    let own = strip_old_hook(existing);
    let n: usize = own.as_str().unicode_len();
    let separated = n > 0 && own.as_str().get_char(n - 1) != '\n';
    let mut content = own;
    if separated {
        content.append("\n\n");
    } else {
        content.append("\n");
    }
    content.append(MARKER);
    content.append("\n");
    content.append(hook.hook_line.as_str());
    content.append("\n");
    InitPlan::Install(content)
}

/// Lines with a line feed after each.
pub open spec fn ended_lines(lines: Seq<Seq<char>>) -> Seq<char>
    decreases lines.len(),
{
    if lines.len() == 0 {
        Seq::empty()
    } else {
        lines[0].push('\n') + ended_lines(lines.drop_first())
    }
}

proof fn ended_lines_push(lines: Seq<Seq<char>>, line: Seq<char>)
    ensures
        ended_lines(lines.push(line)) == ended_lines(lines) + line.push('\n'),
    decreases lines.len(),
{
    let all = lines.push(line);
    if lines.len() == 0 {
        assert(all.drop_first() =~= Seq::<Seq<char>>::empty());
        assert(ended_lines(all.drop_first()) =~= Seq::<char>::empty());
        assert(ended_lines(all) =~= ended_lines(lines) + line.push('\n'));
    } else {
        assert(all.drop_first() =~= lines.drop_first().push(line));
        ended_lines_push(lines.drop_first(), line);
        assert(ended_lines(all) =~= ended_lines(lines) + line.push('\n'));
    }
}

proof fn joined_is_ended(lines: Seq<Seq<char>>)
    requires
        lines.len() > 0,
    ensures
        joined_lines(lines).push('\n') == ended_lines(lines),
    decreases lines.len(),
{
    let init = lines.drop_last();
    ended_lines_push(init, lines.last());
    assert(init.push(lines.last()) =~= lines);
    if lines.len() == 1 {
        assert(init =~= Seq::<Seq<char>>::empty());
        assert(ended_lines(init) =~= Seq::<char>::empty());
        assert(joined_lines(lines).push('\n') =~= ended_lines(lines));
    } else {
        joined_is_ended(init);
        assert(joined_lines(lines).push('\n') =~= ended_lines(lines));
    }
}

/// Whether a line can be told apart again once it is written with a line feed
/// after it.
pub open spec fn is_plain_line(line: Seq<char>) -> bool {
    &&& forall|i: int| 0 <= i < line.len() ==> line[i] != '\n'
    &&& line.len() > 0 ==> line.last() != '\r'
}

/// Written lines are read back.
pub proof fn ended_lines_read_back(lines: Seq<Seq<char>>)
    requires
        forall|i: int| 0 <= i < lines.len() ==> is_plain_line(#[trigger] lines[i]),
    ensures
        text_lines(ended_lines(lines)) == lines,
    decreases lines.len(),
{
    if lines.len() > 0 {
        let rest = lines.drop_first();
        assert forall|i: int| 0 <= i < rest.len() implies is_plain_line(#[trigger] rest[i]) by {
            assert(rest[i] == lines[i + 1]);
        }
        ended_lines_read_back(rest);
        let s = ended_lines(lines);
        let n = lines[0].len() as int;
        assert(is_plain_line(lines[0]));
        assert forall|j: int| 0 <= j < n implies s[j] != '\n' by {
            assert(s[j] == lines[0][j]);
        }
        assert(s[n] == '\n');
        line_end_is(s, 0, n);
        assert(s.take(n) =~= lines[0]);
        assert(s.skip(n + 1) =~= ended_lines(rest));
        assert(text_lines(s) =~= lines);
    } else {
        assert(text_lines(ended_lines(lines)) =~= lines);
    }
}

proof fn text_lines_hold_no_feed(s: Seq<char>)
    ensures
        forall|i: int, j: int|
            0 <= i < text_lines(s).len() && 0 <= j < text_lines(s)[i].len() ==> (
            #[trigger] text_lines(s)[i][j]) != '\n',
    decreases s.len(),
{
    if s.len() > 0 {
        let end = line_end(s, 0);
        line_end_props(s, 0);
        if end < s.len() {
            let rest = s.skip(end + 1);
            text_lines_hold_no_feed(rest);
            assert forall|i: int, j: int|
                0 <= i < text_lines(s).len() && 0 <= j < text_lines(s)[i].len() implies (
            #[trigger] text_lines(s)[i][j]) != '\n' by {
                if i > 0 {
                    assert(text_lines(s)[i] == text_lines(rest)[i - 1]);
                    assert(text_lines(rest)[i - 1][j] != '\n');
                } else {
                    assert(text_lines(s)[0] == without_cr(s.take(end)));
                }
            }
        }
    }
}

proof fn own_lines_origin(lines: Seq<Seq<char>>, k: int, i: int)
    requires
        0 <= k <= lines.len(),
        0 <= i < own_lines(lines, k).len(),
    ensures
        exists|j: int|
            0 <= j < k && !is_installed_line(lines, j) && #[trigger] lines[j] == own_lines(
                lines,
                k,
            )[i],
    decreases k,
{
    let before = own_lines(lines, k - 1);
    if i < before.len() {
        own_lines_origin(lines, k - 1, i);
        assert(own_lines(lines, k)[i] == before[i]);
        let j = choose|j: int|
            0 <= j < k - 1 && !is_installed_line(lines, j) && #[trigger] lines[j] == before[i];
        assert(lines[j] == own_lines(lines, k)[i]);
    } else {
        assert(lines[k - 1] == own_lines(lines, k)[i]);
    }
}

proof fn blank_tail_props(lines: Seq<Seq<char>>)
    ensures
        without_blank_tail(lines).len() <= lines.len(),
        without_blank_tail(lines) == lines.take(without_blank_tail(lines).len() as int),
        without_blank_tail(lines).len() > 0 ==> trimmed(without_blank_tail(lines).last()).len() > 0,
    decreases lines.len(),
{
    if lines.len() > 0 && trimmed(lines.last()).len() == 0 {
        blank_tail_props(lines.drop_last());
        let n = without_blank_tail(lines).len() as int;
        assert(lines.drop_last().take(n) =~= lines.take(n));
    } else {
        assert(lines.take(lines.len() as int) =~= lines);
    }
}

/// What is kept of a file: none of the kept lines is a marker or holds a line
/// feed, and the last one is not blank.
pub proof fn kept_lines_props(content: Seq<char>)
    ensures
        forall|i: int|
            0 <= i < kept_lines(content).len() ==> !is_marker(#[trigger] kept_lines(content)[i]),
        forall|i: int, j: int|
            0 <= i < kept_lines(content).len() && 0 <= j < kept_lines(content)[i].len() ==> (
            #[trigger] kept_lines(content)[i][j]) != '\n',
        kept_lines(content).len() > 0 ==> trimmed(kept_lines(content).last()).len() > 0,
{
    let lines = text_lines(content);
    let own = own_lines(lines, lines.len() as int);
    let kept = kept_lines(content);
    text_lines_hold_no_feed(content);
    blank_tail_props(own);
    assert forall|i: int| 0 <= i < kept.len() implies !is_marker(#[trigger] kept[i]) by {
        assert(kept[i] == own[i]);
        own_lines_origin(lines, lines.len() as int, i);
    }
    assert forall|i: int, j: int| 0 <= i < kept.len() && 0 <= j < kept[i].len() implies (
    #[trigger] kept[i][j]) != '\n' by {
        assert(kept[i] == own[i]);
        own_lines_origin(lines, lines.len() as int, i);
        let k = choose|k: int|
            0 <= k < lines.len() && !is_installed_line(lines, k) && #[trigger] lines[k] == own[i];
        assert(lines[k][j] != '\n');
    }
}

proof fn own_lines_all(lines: Seq<Seq<char>>, k: int)
    requires
        0 <= k <= lines.len(),
        forall|i: int| 0 <= i < k ==> !is_installed_line(lines, i),
    ensures
        own_lines(lines, k) == lines.take(k),
    decreases k,
{
    if k > 0 {
        own_lines_all(lines, k - 1);
        assert(lines.take(k) =~= lines.take(k - 1).push(lines[k - 1]));
    } else {
        assert(lines.take(0) =~= Seq::<Seq<char>>::empty());
    }
}

proof fn no_trim(s: Seq<char>)
    requires
        s.len() > 0,
        !is_white_space(s[0]),
        !is_white_space(s.last()),
    ensures
        trimmed(s) == s,
{
    assert(skip_white(s, 0) == 0);
    assert(run_start(s, s.len() as int, true) == s.len());
    assert(s.subrange(0, s.len() as int) =~= s);
}

/// The hook line is a hook when it stands below the marker.
proof fn hook_is_marked_hook(exe: Seq<char>)
    ensures
        is_marked_hook(hook_for(exe)),
        hook_for(exe).len() > 0,
        hook_for(exe).last() == '"',
{
    let hook = hook_for(exe);
    let a = "[[ -z \"$TUIPO_ACTIVE\" ]] && [[ -x \""@;
    let b = "\" ]] && exec \""@;
    let c = "\" -- \"$SHELL\""@;
    reveal_strlit("[[ -z \"$TUIPO_ACTIVE\" ]] && [[ -x \"");
    reveal_strlit("\" ]] && exec \"");
    reveal_strlit("\" -- \"$SHELL\"");
    reveal_strlit("TUIPO_ACTIVE");
    reveal_strlit("exec");
    assert(hook.last() == c.last());
    assert(hook[0] == a[0]);
    no_trim(hook);
    assert(hook.subrange(8, 20) =~= "TUIPO_ACTIVE"@);
    assert(stands_at(hook, "TUIPO_ACTIVE"@, 8));
    let e = (a.len() + exe.len() + 8) as int;
    assert(hook.subrange(e, e + 4) =~= "exec"@);
    assert(stands_at(hook, "exec"@, e));
}

proof fn marker_is_marker()
    ensures
        is_marker(MARKER@),
        is_plain_line(MARKER@),
{
    reveal_strlit("# tuipo — Grammarly-style spell-check for terminal TUIs");
    no_trim(MARKER@);
}

/// What an installation writes, line by line.
proof fn installed_lines(existing: Seq<char>, hook: Seq<char>)
    ensures
        installed_content(existing, hook) == ended_lines(
            kept_lines(existing) + seq![Seq::<char>::empty(), MARKER@, hook],
        ),
{
    let kept = kept_lines(existing);
    let own = joined_lines(kept);
    kept_lines_props(existing);
    reveal_strlit("\n\n");
    reveal_strlit("\n");
    let l1 = kept.push(Seq::<char>::empty());
    let l2 = l1.push(MARKER@);
    let l3 = l2.push(hook);
    assert(l3 =~= kept + seq![Seq::<char>::empty(), MARKER@, hook]);
    ended_lines_push(kept, Seq::<char>::empty());
    ended_lines_push(l1, MARKER@);
    ended_lines_push(l2, hook);
    if kept.len() > 0 {
        joined_is_ended(kept);
        let last = kept.last();
        assert(last.len() > 0);
        assert(own.len() > 0 && own.last() == last.last());
        assert(kept[kept.len() - 1][last.len() - 1] != '\n');
    } else {
        assert(own =~= Seq::<char>::empty());
    }
    assert(installed_content(existing, hook) =~= ended_lines(l3));
}

/// Whether reading a file back gives the lines that are kept of it, and none
/// of those would itself be taken for a hook.
pub open spec fn is_clean(content: Seq<char>) -> bool {
    forall|i: int|
        0 <= i < kept_lines(content).len() ==> !is_bare_hook(#[trigger] kept_lines(content)[i])
            && (kept_lines(content)[i].len() > 0 ==> kept_lines(content)[i].last() != '\r')
}

/// Installing again adds nothing: what is written over an earlier installation
/// is what stands there already.
pub proof fn reinstall_changes_nothing(existing: Seq<char>, exe: Seq<char>)
    requires
        is_clean(existing),
        forall|i: int| 0 <= i < exe.len() ==> exe[i] != '\n',
    ensures
        ({
            let once = installed_content(existing, hook_for(exe));
            &&& kept_lines(once) == kept_lines(existing)
            &&& installed_content(once, hook_for(exe)) == once
        }),
{
    let hook = hook_for(exe);
    let once = installed_content(existing, hook);
    let kept = kept_lines(existing);
    let lines = kept + seq![Seq::<char>::empty(), MARKER@, hook];
    let n = kept.len() as int;
    installed_lines(existing, hook);
    kept_lines_props(existing);
    hook_is_marked_hook(exe);
    marker_is_marker();
    assert(is_plain_line(hook)) by {
        reveal_strlit("[[ -z \"$TUIPO_ACTIVE\" ]] && [[ -x \"");
        reveal_strlit("\" ]] && exec \"");
        reveal_strlit("\" -- \"$SHELL\"");
    }
    assert forall|i: int| 0 <= i < lines.len() implies is_plain_line(#[trigger] lines[i]) by {
        if i < n {
            assert(lines[i] == kept[i]);
            assert forall|j: int| 0 <= j < lines[i].len() implies lines[i][j] != '\n' by {
                assert(kept[i][j] != '\n');
            }
        }
    }
    ended_lines_read_back(lines);
    assert(text_lines(once) == lines);
    let blank = Seq::<char>::empty();
    assert(trimmed(blank).len() == 0);
    reveal_strlit("[[ -z \"$TUIPO_ACTIVE\" ]]");
    reveal_strlit("# tuipo — Grammarly-style spell-check for terminal TUIs");
    assert forall|i: int| 0 <= i < n + 1 implies !is_installed_line(lines, i) by {
        if i < n {
            assert(lines[i] == kept[i]);
        }
        if i > 0 {
            assert(lines[i - 1] == kept[i - 1]);
        }
    }
    own_lines_all(lines, n + 1);
    assert(is_installed_line(lines, n + 1));
    assert(is_installed_line(lines, n + 2));
    assert(own_lines(lines, n + 2) == lines.take(n + 1));
    assert(own_lines(lines, n + 3) == lines.take(n + 1));
    assert(lines.take(n + 1) =~= kept.push(blank));
    assert(kept.push(blank).drop_last() =~= kept);
    assert(without_blank_tail(kept.push(blank)) == without_blank_tail(kept));
    assert(without_blank_tail(kept) == kept);
}

/// An installation is recognised: without `--force` the hook is not written a
/// second time.
pub proof fn installed_hook_is_recognised(existing: Seq<char>, hook: Seq<char>)
    ensures
        has_text(installed_content(existing, hook), hook),
{
    let content = installed_content(existing, hook);
    reveal_strlit("\n");
    let i = content.len() - 1 - hook.len();
    assert(content.subrange(i, i + hook.len()) =~= hook);
    assert(stands_at(content, hook, i));
}

/// The user's own lines stay: where no line has to do with the hook, all lines
/// are kept in order but for blank ones at the end.
pub proof fn own_lines_are_kept(content: Seq<char>)
    requires
        forall|i: int|
            0 <= i < text_lines(content).len() ==> trimmed(#[trigger] text_lines(content)[i])
                != MARKER@ && !has_text(trimmed(text_lines(content)[i]), "TUIPO_ACTIVE"@),
    ensures
        kept_lines(content).is_prefix_of(text_lines(content)),
        forall|i: int|
            kept_lines(content).len() <= i < text_lines(content).len() ==> trimmed(
                #[trigger] text_lines(content)[i],
            ).len() == 0,
{
    let lines = text_lines(content);
    let n = lines.len() as int;
    assert forall|i: int| 0 <= i < n implies !is_installed_line(lines, i) by {
        assert(trimmed(lines[i]) != MARKER@);
        if is_bare_hook(lines[i]) {
            bare_hook_names_the_variable(trimmed(lines[i]));
        }
    }
    own_lines_all(lines, n);
    assert(lines.take(n) =~= lines);
    blank_tail_props(lines);
    blank_tail_is_blank(lines);
    let kept = without_blank_tail(lines);
    assert(lines.subrange(0, kept.len() as int) =~= kept);
}

proof fn bare_hook_names_the_variable(line: Seq<char>)
    requires
        stands_at(line, "[[ -z \"$TUIPO_ACTIVE\" ]]"@, 0),
    ensures
        has_text(line, "TUIPO_ACTIVE"@),
{
    reveal_strlit("[[ -z \"$TUIPO_ACTIVE\" ]]");
    reveal_strlit("TUIPO_ACTIVE");
    let whole = "[[ -z \"$TUIPO_ACTIVE\" ]]"@;
    let n = whole.len() as int;
    assert(line.subrange(0, n) == whole);
    assert(whole.subrange(8, 20) =~= "TUIPO_ACTIVE"@);
    assert(line.subrange(8, 20) =~= line.subrange(0, n).subrange(8, 20));
    assert(stands_at(line, "TUIPO_ACTIVE"@, 8));
}

proof fn blank_tail_is_blank(lines: Seq<Seq<char>>)
    ensures
        forall|i: int|
            without_blank_tail(lines).len() <= i < lines.len() ==> trimmed(
                #[trigger] lines[i],
            ).len() == 0,
    decreases lines.len(),
{
    if lines.len() > 0 && trimmed(lines.last()).len() == 0 {
        let init = lines.drop_last();
        blank_tail_is_blank(init);
        assert forall|i: int| without_blank_tail(lines).len() <= i < lines.len() implies trimmed(
            #[trigger] lines[i],
        ).len() == 0 by {
            if i < init.len() {
                assert(init[i] == lines[i]);
            }
        }
    }
}

/// Installing appends: to a file that has nothing to do with the hook and whose
/// last line is not blank, a blank line, the marker and the hook are added and
/// nothing is changed.
pub proof fn installing_appends(lines: Seq<Seq<char>>, hook: Seq<char>)
    requires
        forall|i: int|
            0 <= i < lines.len() ==> is_plain_line(#[trigger] lines[i]) && trimmed(lines[i])
                != MARKER@ && !has_text(trimmed(lines[i]), "TUIPO_ACTIVE"@),
        lines.len() > 0 ==> trimmed(lines.last()).len() > 0,
    ensures
        installed_content(ended_lines(lines), hook) == ended_lines(lines) + seq!['\n'] + MARKER@
            + seq!['\n'] + hook + seq!['\n'],
{
    let existing = ended_lines(lines);
    ended_lines_read_back(lines);
    assert(text_lines(existing) == lines);
    own_lines_are_kept(existing);
    let kept = kept_lines(existing);
    assert(kept =~= lines) by {
        assert(kept == lines.subrange(0, kept.len() as int));
        if kept.len() < lines.len() {
            assert(trimmed(lines[lines.len() - 1]).len() == 0);
        }
    }
    installed_lines(existing, hook);
    let blank = Seq::<char>::empty();
    let l1 = lines.push(blank);
    let l2 = l1.push(MARKER@);
    ended_lines_push(lines, blank);
    ended_lines_push(l1, MARKER@);
    ended_lines_push(l2, hook);
    assert(l2.push(hook) =~= kept + seq![blank, MARKER@, hook]);
    assert(installed_content(existing, hook) =~= ended_lines(lines) + seq!['\n'] + MARKER@
        + seq!['\n'] + hook + seq!['\n']);
}

/// Installing anew replaces the hook of an earlier installation and keeps
/// everything else.
pub proof fn installing_replaces_the_old_hook(
    existing: Seq<char>,
    old_exe: Seq<char>,
    new_exe: Seq<char>,
)
    requires
        is_clean(existing),
        forall|i: int| 0 <= i < old_exe.len() ==> old_exe[i] != '\n',
    ensures
        installed_content(
            installed_content(existing, hook_for(old_exe)),
            hook_for(new_exe),
        ) == installed_content(existing, hook_for(new_exe)),
{
    reinstall_changes_nothing(existing, old_exe);
}

/// A shell is known by its name, alone or at the end of a path, and the hook
/// goes to the file that this shell reads.
pub proof fn shells_are_known_by_name(dir: Seq<char>, has_bash_profile: bool)
    ensures
        rc_file("zsh"@, has_bash_profile) == Some(".zshrc"@),
        rc_file(dir.push('/') + "zsh"@, has_bash_profile) == Some(".zshrc"@),
        rc_file("bash"@, true) == Some(".bash_profile"@),
        rc_file("bash"@, false) == Some(".bashrc"@),
        rc_file(dir.push('/') + "bash"@, true) == Some(".bash_profile"@),
        rc_file(dir.push('/') + "bash"@, false) == Some(".bashrc"@),
{
    reveal_strlit("/");
    reveal_strlit("zsh");
    reveal_strlit("bash");
    let z = dir.push('/') + "zsh"@;
    let b = dir.push('/') + "bash"@;
    assert(z.subrange(z.len() - 4, z.len() as int) =~= "/"@ + "zsh"@);
    assert(b.subrange(b.len() - 5, b.len() as int) =~= "/"@ + "bash"@);
    assert("bash"@.len() != "zsh"@.len());
    if names_shell(b, "zsh"@) {
        if b == "zsh"@ {
            assert(b.len() >= 5);
        } else {
            assert(b.subrange(b.len() - 4, b.len() as int) == "/"@ + "zsh"@);
            assert(b[b.len() - 4] == 'b');
            assert(b.subrange(b.len() - 4, b.len() as int)[0] == b[b.len() - 4]);
            assert(("/"@ + "zsh"@)[0] == '/');
        }
    }
    if names_shell("bash"@, "zsh"@) {
        assert("bash"@.subrange(0, 4) == "/"@ + "zsh"@);
        assert("bash"@.subrange(0, 4)[0] == 'b');
        assert(("/"@ + "zsh"@)[0] == '/');
    }
}

/// No other shell is taken for one of the two: its name would have to end like
/// theirs.
pub proof fn other_shells_are_unknown(shell: Seq<char>, has_bash_profile: bool)
    requires
        rc_file(shell, has_bash_profile) is Some,
    ensures
        shell.len() >= 3,
        shell.skip(shell.len() - 3) == "zsh"@ || (shell.len() >= 4 && shell.skip(shell.len() - 4)
            == "bash"@),
{
    reveal_strlit("/");
    reveal_strlit("zsh");
    reveal_strlit("bash");
    let n = shell.len() as int;
    if names_shell(shell, "zsh"@) {
        if shell == "zsh"@ {
            assert(shell.skip(n - 3) =~= "zsh"@);
        } else {
            let tail = shell.subrange(n - 4, n);
            assert(tail == "/"@ + "zsh"@);
            assert(shell.skip(n - 3) =~= tail.skip(1));
            assert(tail.skip(1) =~= "zsh"@);
        }
    } else {
        if shell == "bash"@ {
            assert(shell.skip(n - 4) =~= "bash"@);
        } else {
            let tail = shell.subrange(n - 5, n);
            assert(tail == "/"@ + "bash"@);
            assert(shell.skip(n - 4) =~= tail.skip(1));
            assert(tail.skip(1) =~= "bash"@);
        }
    }
}

/// A path begins with its directory and ends with the name, with one slash
/// between them.
pub proof fn path_joins_directory_and_name(dir: Seq<char>, name: Seq<char>)
    requires
        dir.len() > 0,
        dir.last() != '/',
    ensures
        path_in(dir, name) == dir.push('/') + name,
        path_in(dir.push('/'), name) == dir.push('/') + name,
{
    reveal_strlit("/");
    assert(path_in(dir, name) =~= dir.push('/') + name);
}

/// The hook runs the program that it was made for, and only one that is there.
pub proof fn hook_runs_the_program(exe: Seq<char>)
    ensures
        has_text(hook_for(exe), "exec \""@ + exe + "\""@),
        has_text(hook_for(exe), "-x \""@ + exe + "\""@),
        has_text(hook_for(exe), "-z \"$TUIPO_ACTIVE\""@),
{
    let a = "[[ -z \"$TUIPO_ACTIVE\" ]] && [[ -x \""@;
    let b = "\" ]] && exec \""@;
    let c = "\" -- \"$SHELL\""@;
    reveal_strlit("[[ -z \"$TUIPO_ACTIVE\" ]] && [[ -x \"");
    reveal_strlit("\" ]] && exec \"");
    reveal_strlit("\" -- \"$SHELL\"");
    reveal_strlit("exec \"");
    reveal_strlit("-x \"");
    reveal_strlit("\"");
    reveal_strlit("-z \"$TUIPO_ACTIVE\"");
    let hook = hook_for(exe);
    let e = exe.len() as int;
    let n = a.len() as int;
    let run = "exec \""@ + exe + "\""@;
    let i = n + e + 8;
    assert(hook.subrange(i, i + run.len()) =~= run);
    assert(stands_at(hook, run, i));
    let there = "-x \""@ + exe + "\""@;
    let j = n - 4;
    assert(hook.subrange(j, j + there.len()) =~= there);
    assert(stands_at(hook, there, j));
    let unset = "-z \"$TUIPO_ACTIVE\""@;
    assert(hook.subrange(3, 3 + unset.len() as int) =~= unset);
    assert(stands_at(hook, unset, 3));
}

/// A dry run changes nothing, an installed hook is left alone unless it is
/// asked for by force, and otherwise the file is written with the hook in it.
pub proof fn plan_follows_the_arguments(
    dry_run: bool,
    force: bool,
    line: Seq<char>,
    existing: Seq<char>,
)
    ensures
        plan_for(dry_run, force, None, existing) is UnknownShell,
        dry_run ==> plan_for(dry_run, force, Some(line), existing) is DryRun,
        !dry_run && force ==> plan_for(dry_run, force, Some(line), existing) is Install,
        !dry_run && !force && has_text(existing, line) ==> plan_for(
            dry_run,
            force,
            Some(line),
            existing,
        ) is AlreadyInstalled,
        !dry_run && !has_text(existing, line) ==> plan_for(
            dry_run,
            force,
            Some(line),
            existing,
        ) is Install,
        plan_for(dry_run, force, Some(line), existing) matches PlanView::Install(content)
            ==> has_text(content, line) && has_text(content, MARKER@),
{
    installed_hook_is_recognised(existing, line);
    let content = installed_content(existing, line);
    reveal_strlit("\n");
    let i = content.len() - 2 - line.len() - MARKER@.len();
    assert(content.subrange(i, i + MARKER@.len()) =~= MARKER@);
    assert(stands_at(content, MARKER@, i));
}

/// Without arguments nothing is asked for, and an argument counts wherever it
/// stands.
pub proof fn arguments_are_found(args: Seq<String>, arg: Seq<char>, i: int)
    ensures
        0 <= i < args.len() && args[i]@ == arg ==> has_arg(args, arg),
        (forall|k: int| 0 <= k < args.len() ==> (#[trigger] args[k])@ != arg) ==> !has_arg(
            args,
            arg,
        ),
{
}

} // verus!
