//! Settings and how they are resolved.
//!
//! All settings are optional in the file; missing keys have the defaults
//! below. For every setting with an environment variable, the variable wins
//! over the file for that session. The values of the variables come in as
//! `EnvOverrides`.

use crate::clock::Duration;
use crate::paint::{UnderlineStyle, FANCY, PLAIN};
use crate::text::{digits, push_digits, same_text};
use vstd::prelude::*;

verus! {

/// Default pause before the first paint after a keystroke.
pub const DEFAULT_PAUSE_MS: u64 = 150;

/// Default idle time before the hover tooltip appears.
pub const DEFAULT_HOVER_MS: u64 = 250;

#[derive(Debug, Clone, Copy, PartialEq, Eq, Structural)]
pub enum UnderlineMode {
    /// Plain on Apple Terminal, which misreads the other form, else fancy.
    Auto,
    /// Always a plain underline.
    Plain,
    /// Always a curly red underline.
    Fancy,
}

#[derive(Debug)]
pub struct Config {
    /// The inline overlay as a whole.
    pub paint: bool,
    /// Which underline the painter draws.
    pub underline: UnderlineMode,
    /// Tab fixes the most recent misspelling.
    pub tab_fix: bool,
    /// Tab and hovering open the suggestion picker. Implies `tab_fix`.
    pub picker: bool,
    /// An issue count in the bottom row.
    pub status_row: bool,
    /// A small set of grammar hints beside spelling.
    pub grammar: bool,
    /// Pause in milliseconds before the first paint after a keystroke.
    pub pause_ms: u64,
    /// Idle milliseconds before the hover tooltip appears.
    pub hover_ms: u64,
    /// Path of the user's word list, in place of the default one.
    pub dict_path: Option<String>,
}

/// What a `Config` holds.
#[verifier::ext_equal]
pub struct ConfigView {
    pub paint: bool,
    pub underline: UnderlineMode,
    pub tab_fix: bool,
    pub picker: bool,
    pub status_row: bool,
    pub grammar: bool,
    pub pause_ms: int,
    pub hover_ms: int,
    pub dict_path: Option<Seq<char>>,
}

impl View for Config {
    type V = ConfigView;

    open spec fn view(&self) -> ConfigView {
        ConfigView {
            paint: self.paint,
            underline: self.underline,
            tab_fix: self.tab_fix,
            picker: self.picker,
            status_row: self.status_row,
            grammar: self.grammar,
            pause_ms: self.pause_ms as int,
            hover_ms: self.hover_ms as int,
            dict_path: match self.dict_path {
                Some(p) => Some(p@),
                None => None,
            },
        }
    }
}

/// The environment variables that override settings: whether those that count
/// by being set are set, and the values of the others.
#[derive(Debug)]
pub struct EnvOverrides {
    /// `TUIPO_PAINT_OFF` is set.
    pub paint_off: bool,
    /// `TUIPO_TAB_FIX`
    pub tab_fix: Option<String>,
    /// `TUIPO_STATUS`
    pub status: Option<String>,
    /// `TUIPO_GRAMMAR`
    pub grammar: Option<String>,
    /// `TUIPO_PLAIN_UNDERLINE` is set.
    pub plain_underline: bool,
    /// `TUIPO_FANCY_UNDERLINE` is set.
    pub fancy_underline: bool,
    /// `TERM_PROGRAM`
    pub term_program: Option<String>,
}

/// Everything that the overlay needs to know, resolved.
#[derive(Debug, Clone, Copy, PartialEq, Eq, Structural)]
pub struct Settings {
    pub paint: bool,
    pub style: UnderlineStyle,
    pub tab_fix: bool,
    pub picker: bool,
    pub status_row: bool,
    pub grammar: bool,
    pub pause: Duration,
    pub hover: Duration,
}

/// Whether an environment variable has exactly this value.
pub open spec fn env_is(var: Option<String>, value: Seq<char>) -> bool {
    match var {
        Some(v) => v@ == value,
        None => false,
    }
}

fn is_value(var: &Option<String>, value: &str) -> (r: bool)
    ensures
        r == env_is(*var, value@),
{
    match var {
        Some(v) => same_text(v.as_str(), value),
        None => false,
    }
}

impl Default for UnderlineMode {
    fn default() -> (r: Self)
        ensures
            r == UnderlineMode::Auto,
    {
        UnderlineMode::Auto
    }
}

impl Default for EnvOverrides {
    /// No variable is set.
    fn default() -> (r: Self)
        ensures
            !r.paint_off && !r.plain_underline && !r.fancy_underline,
            r.tab_fix is None && r.status is None && r.grammar is None && r.term_program is None,
    {
        EnvOverrides {
            paint_off: false,
            tab_fix: None,
            status: None,
            grammar: None,
            plain_underline: false,
            fancy_underline: false,
            term_program: None,
        }
    }
}

impl Default for Config {
    fn default() -> (r: Self)
        ensures
            r == (Config {
                paint: true,
                underline: UnderlineMode::Auto,
                tab_fix: false,
                picker: false,
                status_row: false,
                grammar: false,
                pause_ms: DEFAULT_PAUSE_MS,
                hover_ms: DEFAULT_HOVER_MS,
                dict_path: None,
            }),
    {
        Config {
            paint: true,
            underline: UnderlineMode::Auto,
            tab_fix: false,
            picker: false,
            status_row: false,
            grammar: false,
            pause_ms: DEFAULT_PAUSE_MS,
            hover_ms: DEFAULT_HOVER_MS,
            dict_path: None,
        }
    }
}

impl Clone for Config {
    fn clone(&self) -> (r: Self)
        ensures
            r == *self,
    {
        Config {
            paint: self.paint,
            underline: self.underline,
            tab_fix: self.tab_fix,
            picker: self.picker,
            status_row: self.status_row,
            grammar: self.grammar,
            pause_ms: self.pause_ms,
            hover_ms: self.hover_ms,
            dict_path: match &self.dict_path {
                Some(p) => Some(p.clone()),
                None => None,
            },
        }
    }
}

/// `true` and `false` as they are written.
pub open spec fn bool_text(b: bool) -> Seq<char> {
    if b {
        "true"@
    } else {
        "false"@
    }
}

/// A number as it is written.
pub open spec fn number_text(n: nat) -> Seq<char> {
    digits(n).map_values(|b: u8| b as char)
}

pub open spec fn mode_text(m: UnderlineMode) -> Seq<char> {
    match m {
        UnderlineMode::Auto => "auto"@,
        UnderlineMode::Plain => "plain"@,
        UnderlineMode::Fancy => "fancy"@,
    }
}

/// `s` with a backslash before each backslash and double quote.
pub open spec fn escaped(s: Seq<char>) -> Seq<char>
    decreases s.len(),
{
    if s.len() == 0 {
        Seq::empty()
    } else if s.last() == '\\' || s.last() == '"' {
        escaped(s.drop_last()).push('\\').push(s.last())
    } else {
        escaped(s.drop_last()).push(s.last())
    }
}

impl Config {
    pub open spec fn paint_on(&self, env: &EnvOverrides) -> bool {
        self.paint && !env.paint_off
    }

    pub open spec fn tab_fix_on(&self, env: &EnvOverrides) -> bool {
        env_is(env.tab_fix, "1"@) || self.tab_fix || self.picker
    }

    pub open spec fn status_on(&self, env: &EnvOverrides) -> bool {
        env_is(env.status, "on"@) || self.status_row
    }

    pub open spec fn grammar_on(&self, env: &EnvOverrides) -> bool {
        env_is(env.grammar, "1"@) || self.grammar
    }

    pub open spec fn style(&self, env: &EnvOverrides) -> UnderlineStyle {
        if env.plain_underline {
            PLAIN
        } else if env.fancy_underline {
            FANCY
        } else {
            match self.underline {
                UnderlineMode::Plain => PLAIN,
                UnderlineMode::Fancy => FANCY,
                UnderlineMode::Auto => if env_is(env.term_program, "Apple_Terminal"@) {
                    PLAIN
                } else {
                    FANCY
                },
            }
        }
    }

    pub open spec fn resolved(&self, env: &EnvOverrides) -> Settings {
        let on = self.paint_on(env);
        Settings {
            paint: on,
            style: self.style(env),
            tab_fix: on && self.tab_fix_on(env),
            picker: on && self.picker,
            status_row: self.status_on(env),
            grammar: self.grammar_on(env),
            pause: Duration { nanos: (self.pause_ms * 1_000_000) as u128 },
            hover: Duration { nanos: (self.hover_ms * 1_000_000) as u128 },
        }
    }

    /// Whether the painter runs at all. `TUIPO_PAINT_OFF` forces it off.
    pub fn paint_enabled(&self, env: &EnvOverrides) -> (r: bool)
        ensures
            r == self.paint_on(env),
    {
        if env.paint_off {
            return false;
        }
        self.paint
    }

    /// Whether Tab is intercepted. `TUIPO_TAB_FIX=1` forces it on, and so
    /// does the picker, which is only reached by Tab.
    pub fn tab_fix_enabled(&self, env: &EnvOverrides) -> (r: bool)
        ensures
            r == self.tab_fix_on(env),
    {
        if is_value(&env.tab_fix, "1") {
            return true;
        }
        self.tab_fix || self.picker
    }

    /// Whether the suggestion picker is enabled; no variable overrides it.
    pub fn picker_enabled(&self) -> (r: bool)
        ensures
            r == self.picker,
    {
        self.picker
    }

    /// Whether the status row is drawn. `TUIPO_STATUS=on` forces it on.
    pub fn status_row_enabled(&self, env: &EnvOverrides) -> (r: bool)
        ensures
            r == self.status_on(env),
    {
        if is_value(&env.status, "on") {
            return true;
        }
        self.status_row
    }

    /// Whether grammar issues are shown. `TUIPO_GRAMMAR=1` forces it on.
    pub fn grammar_enabled(&self, env: &EnvOverrides) -> (r: bool)
        ensures
            r == self.grammar_on(env),
    {
        if is_value(&env.grammar, "1") {
            return true;
        }
        self.grammar
    }

    /// Pause before the first paint after a keystroke.
    pub fn pause_duration(&self) -> (r: Duration)
        ensures
            r.nanos == self.pause_ms * 1_000_000,
    {
        Duration::from_millis(self.pause_ms)
    }

    /// Idle time before the hover tooltip appears.
    pub fn hover_duration(&self) -> (r: Duration)
        ensures
            r.nanos == self.hover_ms * 1_000_000,
    {
        Duration::from_millis(self.hover_ms)
    }

    /// The underline to draw. The variables win, then the configured mode;
    /// the automatic mode goes by the terminal program.
    pub fn underline_style(&self, env: &EnvOverrides) -> (r: UnderlineStyle)
        ensures
            r == self.style(env),
    {
        if env.plain_underline {
            return PLAIN;
        }
        if env.fancy_underline {
            return FANCY;
        }
        match self.underline {
            UnderlineMode::Plain => PLAIN,
            UnderlineMode::Fancy => FANCY,
            UnderlineMode::Auto => if is_value(&env.term_program, "Apple_Terminal") {
                PLAIN
            } else {
                FANCY
            },
        }
    }

    /// Resolves all settings. With painting off the overlay does nothing at
    /// all, so Tab stays with the child then.
    pub fn settings(&self, env: &EnvOverrides) -> (r: Settings)
        ensures
            r == self.resolved(env),
    {
        let on = self.paint_enabled(env);
        Settings {
            paint: on,
            style: self.underline_style(env),
            tab_fix: on && self.tab_fix_enabled(env),
            picker: on && self.picker_enabled(),
            status_row: self.status_row_enabled(env),
            grammar: self.grammar_enabled(env),
            pause: self.pause_duration(),
            hover: self.hover_duration(),
        }
    }

    /// The lines that every settings file has: three comments, a blank line and
    /// the eight settings that always have a value.
    pub open spec fn fixed_lines(&self) -> Seq<Seq<char>> {
        seq![
            "# Generated by `tuipo config`. Hand-edits are preserved on next"@,
            "# save, but unknown keys will fail to parse (see"@,
            "# `deny_unknown_fields` in src/config.rs)."@,
            ""@,
            "paint = "@ + bool_text(self.paint) + ""@,
            "underline = \""@ + mode_text(self.underline) + "\""@,
            "tab_fix = "@ + bool_text(self.tab_fix) + ""@,
            "picker = "@ + bool_text(self.picker) + ""@,
            "status_row = "@ + bool_text(self.status_row) + ""@,
            "grammar = "@ + bool_text(self.grammar) + ""@,
            "pause_ms = "@ + number_text(self.pause_ms as nat) + ""@,
            "hover_ms = "@ + number_text(self.hover_ms as nat) + ""@,
        ]
    }

    /// The line for the word list, where its path is set.
    pub open spec fn path_lines(&self) -> Seq<Seq<char>> {
        match self.dict_path {
            Some(p) => seq!["dict_path = \""@ + escaped(p@) + "\""@],
            None => Seq::empty(),
        }
    }

    /// The settings as the lines of a TOML file.
    pub open spec fn toml(&self) -> Seq<char> {
        joined(self.fixed_lines() + self.path_lines())
    }

    /// Writes the settings as TOML, line by line in a fixed order.
    pub fn to_toml_string(&self) -> (r: String)
        ensures
            r@ == self.toml(),
    {
        let ghost all = self.fixed_lines();
        let mut s = String::new();
        proof {
            assert(all.take(0) =~= Seq::<Seq<char>>::empty());
            assert(s@ =~= joined(all.take(0)));
        }
        push_plain_line(
            &mut s,
            "# Generated by `tuipo config`. Hand-edits are preserved on next",
            Ghost(all),
            Ghost(0),
        );
        push_plain_line(
            &mut s,
            "# save, but unknown keys will fail to parse (see",
            Ghost(all),
            Ghost(1),
        );
        push_plain_line(&mut s, "# `deny_unknown_fields` in src/config.rs).", Ghost(all), Ghost(2));
        push_plain_line(&mut s, "", Ghost(all), Ghost(3));
        push_line(&mut s, "paint = ", bool_str(self.paint), "", Ghost(all), Ghost(4));
        push_line(
            &mut s,
            "underline = \"",
            underline_mode_str(self.underline),
            "\"",
            Ghost(all),
            Ghost(5),
        );
        push_line(&mut s, "tab_fix = ", bool_str(self.tab_fix), "", Ghost(all), Ghost(6));
        push_line(&mut s, "picker = ", bool_str(self.picker), "", Ghost(all), Ghost(7));
        push_line(&mut s, "status_row = ", bool_str(self.status_row), "", Ghost(all), Ghost(8));
        push_line(&mut s, "grammar = ", bool_str(self.grammar), "", Ghost(all), Ghost(9));
        let pause = number_string(self.pause_ms);
        push_line(&mut s, "pause_ms = ", pause.as_str(), "", Ghost(all), Ghost(10));
        let hover = number_string(self.hover_ms);
        push_line(&mut s, "hover_ms = ", hover.as_str(), "", Ghost(all), Ghost(11));
        assert(all.take(12) =~= all);
        match &self.dict_path {
            Some(p) => {
                let mut path = String::new();
                push_escaped(&mut path, p.as_str());
                let ghost more = all + self.path_lines();
                assert(more.take(12) =~= all);
                assert(path@ =~= escaped(p@));
                push_line(&mut s, "dict_path = \"", path.as_str(), "\"", Ghost(more), Ghost(12));
                assert(more.take(13) =~= more);
            },
            None => {
                assert(all + self.path_lines() =~= all);
            },
        }
        s
    }
}

/// Lines, each with its line end.
pub open spec fn joined(lines: Seq<Seq<char>>) -> Seq<char>
    decreases lines.len(),
{
    if lines.len() == 0 {
        Seq::empty()
    } else {
        joined(lines.drop_last()) + lines.last() + seq!['\n']
    }
}

/// Appends a line that is made of three parts: the one at `k` of `lines`.
fn push_line(
    s: &mut String,
    start: &str,
    value: &str,
    end: &str,
    Ghost(lines): Ghost<Seq<Seq<char>>>,
    Ghost(k): Ghost<int>,
)
    requires
        0 <= k < lines.len(),
        lines[k] == start@ + value@ + end@,
        old(s)@ == joined(lines.take(k)),
    ensures
        final(s)@ == joined(lines.take(k + 1)),
{
    s.append(start);
    s.append(value);
    s.append(end);
    s.push('\n');
    proof {
        assert(lines.take(k + 1).drop_last() =~= lines.take(k));
        assert(s@ =~= joined(lines.take(k)) + lines[k] + seq!['\n']);
    }
}

/// Appends a line: the one at `k` of `lines`.
fn push_plain_line(
    s: &mut String,
    line: &str,
    Ghost(lines): Ghost<Seq<Seq<char>>>,
    Ghost(k): Ghost<int>,
)
    requires
        0 <= k < lines.len(),
        lines[k] == line@,
        old(s)@ == joined(lines.take(k)),
    ensures
        final(s)@ == joined(lines.take(k + 1)),
{
    s.append(line);
    s.push('\n');
    proof {
        assert(lines.take(k + 1).drop_last() =~= lines.take(k));
        assert(s@ =~= joined(lines.take(k)) + lines[k] + seq!['\n']);
    }
}

/// A number as it is written.
fn number_string(n: u64) -> (r: String)
    ensures
        r@ == number_text(n as nat),
{
    let mut r = String::new();
    push_number(&mut r, n);
    assert(r@ =~= number_text(n as nat));
    r
}

fn bool_str(b: bool) -> (r: &'static str)
    ensures
        r@ == bool_text(b),
{
    if b {
        "true"
    } else {
        "false"
    }
}

fn underline_mode_str(m: UnderlineMode) -> (r: &'static str)
    ensures
        r@ == mode_text(m),
{
    match m {
        UnderlineMode::Auto => "auto",
        UnderlineMode::Plain => "plain",
        UnderlineMode::Fancy => "fancy",
    }
}

/// Appends a number as it is written.
pub fn push_number(s: &mut String, n: u64)
    ensures
        final(s)@ == old(s)@ + number_text(n as nat),
{
    let mut ascii: Vec<u8> = Vec::new();
    push_digits(&mut ascii, n);
    let ghost text = number_text(n as nat);
    proof {
        assert(ascii@ =~= digits(n as nat));
        assert(s@ =~= old(s)@ + text.take(0));
    }
    let mut i: usize = 0;
    while i < ascii.len()
        invariant
            ascii@ == digits(n as nat),
            text == number_text(n as nat),
            i <= ascii@.len(),
            s@ == old(s)@ + text.take(i as int),
        decreases ascii@.len() - i,
    {
        s.push(ascii[i] as char);
        i += 1;
        proof {
            assert(s@ =~= old(s)@ + text.take(i as int));
        }
    }
    proof {
        assert(text.take(i as int) =~= text);
    }
}

/// Appends a text with backslashes and double quotes escaped.
fn push_escaped(s: &mut String, text: &str)
    ensures
        final(s)@ == old(s)@ + escaped(text@),
{
    let chars = crate::text::chars_of(text);
    let mut i: usize = 0;
    proof {
        assert(s@ =~= old(s)@ + escaped(chars@.take(0)));
    }
    while i < chars.len()
        invariant
            i <= chars@.len(),
            s@ == old(s)@ + escaped(chars@.take(i as int)),
        decreases chars@.len() - i,
    {
        let c = chars[i];
        if c == '\\' || c == '"' {
            s.push('\\');
        }
        s.push(c);
        i += 1;
        proof {
            assert(chars@.take(i as int).drop_last() =~= chars@.take(i - 1));
            assert(s@ =~= old(s)@ + escaped(chars@.take(i as int)));
        }
    }
    proof {
        assert(chars@.take(i as int) =~= chars@);
    }
}

/// What a reader of a quoted TOML string takes in: the text up to the first
/// double quote that no backslash precedes, each backslash standing for the
/// character after it, and how many characters were read with the closing
/// quote. None where the quote is missing.
pub open spec fn quoted_text(s: Seq<char>) -> Option<(Seq<char>, int)>
    decreases s.len(),
{
    if s.len() == 0 {
        None
    } else if s[0] == '"' {
        Some((Seq::empty(), 1))
    } else if s[0] == '\\' {
        if s.len() == 1 {
            None
        } else {
            match quoted_text(s.skip(2)) {
                Some((text, n)) => Some((seq![s[1]] + text, n + 2)),
                None => None,
            }
        }
    } else {
        match quoted_text(s.skip(1)) {
            Some((text, n)) => Some((seq![s[0]] + text, n + 1)),
            None => None,
        }
    }
}

/// A path written between quotes is read back as the same path, and the
/// reader stops at the quote that closes it.
pub proof fn quoted_path_reads_back(path: Seq<char>, rest: Seq<char>)
    ensures
        quoted_text(escaped(path).push('"') + rest) == Some(
            (path, escaped(path).len() as int + 1),
        ),
    decreases path.len(),
{
    quoted_prefix(path, seq!['"'] + rest);
    assert(escaped(path).push('"') + rest =~= escaped(path) + (seq!['"'] + rest));
    assert(quoted_text(seq!['"'] + rest) == Some((Seq::<char>::empty(), 1int)));
    assert(path + Seq::<char>::empty() =~= path);
}

/// Escaped text in front of more adds itself to what is read.
proof fn quoted_prefix(path: Seq<char>, rest: Seq<char>)
    requires
        quoted_text(rest) is Some,
    ensures
        quoted_text(escaped(path) + rest) == Some(
            (path + (quoted_text(rest)->0).0, escaped(path).len() + (quoted_text(rest)->0).1),
        ),
    decreases path.len(),
{
    if path.len() == 0 {
        assert(escaped(path) + rest =~= rest);
        assert(path + (quoted_text(rest)->0).0 =~= (quoted_text(rest)->0).0);
    } else {
        let c = path.last();
        let init = path.drop_last();
        let one = if c == '\\' || c == '"' {
            seq!['\\', c]
        } else {
            seq![c]
        };
        let next = one + rest;
        assert(next.skip(one.len() as int) =~= rest);
        assert(quoted_text(next) == Some(
            (seq![c] + (quoted_text(rest)->0).0, (quoted_text(rest)->0).1 + one.len()),
        ));
        quoted_prefix(init, next);
        assert(escaped(path) =~= escaped(init) + one);
        assert(escaped(path) + rest =~= escaped(init) + next);
        assert(init + (seq![c] + (quoted_text(rest)->0).0) =~= path + (quoted_text(rest)->0).0);
    }
}

/// The lines of a text: what stands before each line end, and what follows the
/// last one.
pub open spec fn lines(text: Seq<char>) -> Seq<Seq<char>>
    decreases text.len(),
{
    let n = line_len(text) as int;
    if n >= text.len() {
        seq![text]
    } else {
        seq![text.take(n)] + lines(text.skip(n + 1))
    }
}

/// The length of the first line of a text.
pub open spec fn line_len(text: Seq<char>) -> nat
    decreases text.len(),
{
    if text.len() == 0 || text[0] == '\n' {
        0
    } else {
        1 + line_len(text.skip(1))
    }
}

/// Whether a text stays on one line.
pub open spec fn is_one_line(text: Seq<char>) -> bool {
    !text.contains('\n')
}

/// The first line of a text ends at the first line end.
proof fn first_line(line: Seq<char>, rest: Seq<char>)
    requires
        is_one_line(line),
    ensures
        lines(line + seq!['\n'] + rest) == seq![line] + lines(rest),
        line_len(line + seq!['\n'] + rest) == line.len(),
    decreases line.len(),
{
    let text = line + seq!['\n'] + rest;
    if line.len() > 0 {
        assert(line[0] != '\n');
        let tail = line.skip(1);
        assert forall|i: int| 0 <= i < tail.len() implies tail[i] != '\n' by {
            assert(tail[i] == line[i + 1]);
        }
        first_line(tail, rest);
        assert(text.skip(1) =~= tail + seq!['\n'] + rest);
    }
    assert(line_len(text) == line.len());
    assert(text.take(line.len() as int) =~= line);
    assert(text.skip(line.len() as int + 1) =~= rest);
}

/// Lines that were written one after the other can be told apart again.
proof fn joined_lines(all: Seq<Seq<char>>, rest: Seq<char>)
    requires
        forall|i: int| 0 <= i < all.len() ==> is_one_line(#[trigger] all[i]),
    ensures
        lines(joined(all) + rest) == all + lines(rest),
    decreases all.len(),
{
    if all.len() == 0 {
        assert(joined(all) + rest =~= rest);
        assert(all + lines(rest) =~= lines(rest));
    } else {
        let init = all.drop_last();
        assert forall|i: int| 0 <= i < init.len() implies is_one_line(#[trigger] init[i]) by {
            assert(init[i] == all[i]);
        }
        assert(is_one_line(all[all.len() - 1]));
        let tail = all.last() + seq!['\n'] + rest;
        first_line(all.last(), rest);
        joined_lines(init, tail);
        assert(joined(all) + rest =~= joined(init) + tail);
        assert(init + lines(tail) =~= all + lines(rest));
    }
}

proof fn digits_are_digits(n: nat)
    ensures
        digits(n).len() > 0,
        forall|i: int| 0 <= i < digits(n).len() ==> 48 <= #[trigger] digits(n)[i] <= 57,
    decreases n,
{
    if n >= 10 {
        digits_are_digits(n / 10);
    }
}

/// Different numbers are written differently.
proof fn digits_tell_numbers_apart(a: nat, b: nat)
    requires
        digits(a) == digits(b),
    ensures
        a == b,
    decreases a,
{
    digits_are_digits(a / 10);
    digits_are_digits(b / 10);
    assert(digits(a).last() == digits(b).last());
    assert(digits(a).last() == 48 + a % 10);
    assert(digits(b).last() == 48 + b % 10);
    if a >= 10 && b >= 10 {
        assert(digits(a).drop_last() =~= digits(a / 10));
        assert(digits(b).drop_last() =~= digits(b / 10));
        digits_tell_numbers_apart(a / 10, b / 10);
    }
}

proof fn number_texts_tell_numbers_apart(a: nat, b: nat)
    requires
        number_text(a) == number_text(b),
    ensures
        a == b,
{
    digits_are_digits(a);
    digits_are_digits(b);
    assert(digits(a).len() == number_text(a).len());
    assert forall|i: int| 0 <= i < digits(a).len() implies digits(a)[i] == digits(b)[i] by {
        assert(number_text(a)[i] == digits(a)[i] as char);
        assert(number_text(b)[i] == digits(b)[i] as char);
    }
    assert(digits(a) =~= digits(b));
    digits_tell_numbers_apart(a, b);
}

proof fn number_text_is_one_line(n: nat)
    ensures
        is_one_line(number_text(n)),
{
    digits_are_digits(n);
    assert forall|i: int| 0 <= i < number_text(n).len() implies number_text(n)[i] != '\n' by {
        assert(number_text(n)[i] == digits(n)[i] as char);
    }
}

proof fn escaped_is_one_line(path: Seq<char>)
    requires
        is_one_line(path),
    ensures
        is_one_line(escaped(path)),
    decreases path.len(),
{
    if path.len() > 0 {
        let init = path.drop_last();
        assert forall|i: int| 0 <= i < init.len() implies init[i] != '\n' by {
            assert(init[i] == path[i]);
        }
        escaped_is_one_line(init);
        assert(path[path.len() - 1] != '\n');
        let e = escaped(init);
        assert forall|i: int| 0 <= i < escaped(path).len() implies escaped(path)[i] != '\n' by {
            if i < e.len() {
                assert(escaped(path)[i] == e[i]);
            }
        }
    }
}

/// Parts that stay on one line make a line.
proof fn parts_are_one_line(a: Seq<char>, b: Seq<char>, c: Seq<char>)
    requires
        is_one_line(a),
        is_one_line(b),
        is_one_line(c),
    ensures
        is_one_line(a + b + c),
{
    let all = a + b + c;
    assert forall|i: int| 0 <= i < all.len() implies all[i] != '\n' by {
        if i < a.len() {
            assert(all[i] == a[i]);
        } else if i < a.len() + b.len() {
            assert(all[i] == b[i - a.len()]);
        } else {
            assert(all[i] == c[i - a.len() - b.len()]);
        }
    }
}

proof fn values_are_one_line(c: Config)
    ensures
        is_one_line(""@),
        is_one_line("\""@),
        is_one_line(bool_text(c.paint)),
        is_one_line(bool_text(c.tab_fix)),
        is_one_line(bool_text(c.picker)),
        is_one_line(bool_text(c.status_row)),
        is_one_line(bool_text(c.grammar)),
        is_one_line(mode_text(c.underline)),
{
    reveal_strlit("");
    reveal_strlit("\"");
    reveal_strlit("true");
    reveal_strlit("false");
    reveal_strlit("auto");
    reveal_strlit("plain");
    reveal_strlit("fancy");
}

proof fn keys_are_one_line()
    ensures
        is_one_line("paint = "@),
        is_one_line("underline = \""@),
        is_one_line("tab_fix = "@),
        is_one_line("picker = "@),
        is_one_line("status_row = "@),
        is_one_line("grammar = "@),
        is_one_line("pause_ms = "@),
        is_one_line("hover_ms = "@),
        is_one_line("dict_path = \""@),
{
    reveal_strlit("paint = ");
    reveal_strlit("underline = \"");
    reveal_strlit("tab_fix = ");
    reveal_strlit("picker = ");
    reveal_strlit("status_row = ");
    reveal_strlit("grammar = ");
    reveal_strlit("pause_ms = ");
    reveal_strlit("hover_ms = ");
    reveal_strlit("dict_path = \"");
}

proof fn comments_are_one_line()
    ensures
        is_one_line("# Generated by `tuipo config`. Hand-edits are preserved on next"@),
        is_one_line("# save, but unknown keys will fail to parse (see"@),
        is_one_line("# `deny_unknown_fields` in src/config.rs)."@),
{
    reveal_strlit("# Generated by `tuipo config`. Hand-edits are preserved on next");
    reveal_strlit("# save, but unknown keys will fail to parse (see");
    reveal_strlit("# `deny_unknown_fields` in src/config.rs).");
}

proof fn fixed_lines_are_lines(c: Config)
    ensures
        forall|i: int| 0 <= i < c.fixed_lines().len() ==> is_one_line(#[trigger] c.fixed_lines()[i]),
{
    values_are_one_line(c);
    keys_are_one_line();
    comments_are_one_line();
    number_text_is_one_line(c.pause_ms as nat);
    number_text_is_one_line(c.hover_ms as nat);
    parts_are_one_line("paint = "@, bool_text(c.paint), ""@);
    parts_are_one_line("underline = \""@, mode_text(c.underline), "\""@);
    parts_are_one_line("tab_fix = "@, bool_text(c.tab_fix), ""@);
    parts_are_one_line("picker = "@, bool_text(c.picker), ""@);
    parts_are_one_line("status_row = "@, bool_text(c.status_row), ""@);
    parts_are_one_line("grammar = "@, bool_text(c.grammar), ""@);
    parts_are_one_line("pause_ms = "@, number_text(c.pause_ms as nat), ""@);
    parts_are_one_line("hover_ms = "@, number_text(c.hover_ms as nat), ""@);
}

proof fn joined_concat(a: Seq<Seq<char>>, b: Seq<Seq<char>>)
    ensures
        joined(a + b) == joined(a) + joined(b),
    decreases b.len(),
{
    if b.len() == 0 {
        assert(a + b =~= a);
        assert(joined(a) + joined(b) =~= joined(a));
    } else {
        joined_concat(a, b.drop_last());
        assert((a + b).drop_last() =~= a + b.drop_last());
        assert(joined(a + b) =~= joined(a) + joined(b));
    }
}

/// Every setting stands on a line of its own, and nothing else does, as long
/// as the path stays on one line.
pub proof fn settings_stand_on_lines(c: Config)
    requires
        c.dict_path matches Some(p) ==> is_one_line(p@),
    ensures
        lines(c.toml()) == c.fixed_lines() + c.path_lines() + seq![Seq::<char>::empty()],
{
    let all = c.fixed_lines() + c.path_lines();
    fixed_lines_are_lines(c);
    if let Some(p) = c.dict_path {
        values_are_one_line(c);
        keys_are_one_line();
        escaped_is_one_line(p@);
        parts_are_one_line("dict_path = \""@, escaped(p@), "\""@);
    }
    assert forall|i: int| 0 <= i < all.len() implies is_one_line(#[trigger] all[i]) by {
        if i < 12 {
            assert(all[i] == c.fixed_lines()[i]);
        }
    }
    joined_lines(all, Seq::empty());
    assert(joined(all) + Seq::<char>::empty() =~= joined(all));
    assert(line_len(Seq::<char>::empty()) == 0);
    assert(lines(Seq::<char>::empty()) == seq![Seq::<char>::empty()]);
}

/// Whether `text` holds `word` anywhere.
pub open spec fn holds(text: Seq<char>, word: Seq<char>) -> bool {
    exists|i: int|
        0 <= i <= text.len() - word.len() && #[trigger] text.subrange(i, i + word.len()) == word
}

/// Whether every underscore is followed by something other than `p`.
spec fn is_apart(text: Seq<char>) -> bool {
    forall|i: int|
        0 <= i < text.len() && #[trigger] text[i] == '_' ==> i + 1 < text.len() && text[i + 1]
            != 'p'
}

proof fn parts_are_apart(a: Seq<char>, b: Seq<char>, c: Seq<char>)
    requires
        is_apart(a),
        is_apart(b),
        is_apart(c),
    ensures
        is_apart(a + b + c),
{
    let all = a + b + c;
    assert forall|i: int| 0 <= i < all.len() && #[trigger] all[i] == '_' implies i + 1 < all.len()
        && all[i + 1] != 'p' by {
        if i < a.len() {
            assert(all[i] == a[i]);
            assert(all[i + 1] == a[i + 1]);
        } else if i < a.len() + b.len() {
            assert(all[i] == b[i - a.len()]);
            assert(all[i + 1] == b[i - a.len() + 1]);
        } else {
            assert(all[i] == c[i - a.len() - b.len()]);
            assert(all[i + 1] == c[i - a.len() - b.len() + 1]);
        }
    }
}

proof fn joined_is_apart(all: Seq<Seq<char>>)
    requires
        forall|i: int| 0 <= i < all.len() ==> is_apart(#[trigger] all[i]),
    ensures
        is_apart(joined(all)),
    decreases all.len(),
{
    if all.len() > 0 {
        let init = all.drop_last();
        assert forall|i: int| 0 <= i < init.len() implies is_apart(#[trigger] init[i]) by {
            assert(init[i] == all[i]);
        }
        joined_is_apart(init);
        assert(is_apart(all[all.len() - 1]));
        parts_are_apart(joined(init), all.last(), seq!['\n']);
    }
}

proof fn number_text_is_apart(n: nat)
    ensures
        is_apart(number_text(n)),
{
    digits_are_digits(n);
    assert forall|i: int| 0 <= i < number_text(n).len() implies #[trigger] number_text(n)[i]
        != '_' by {
        assert(number_text(n)[i] == digits(n)[i] as char);
    }
}

proof fn values_are_apart(c: Config)
    ensures
        is_apart(""@),
        is_apart("\""@),
        is_apart(bool_text(c.paint)),
        is_apart(bool_text(c.tab_fix)),
        is_apart(bool_text(c.picker)),
        is_apart(bool_text(c.status_row)),
        is_apart(bool_text(c.grammar)),
        is_apart(mode_text(c.underline)),
{
    reveal_strlit("");
    reveal_strlit("\"");
    reveal_strlit("true");
    reveal_strlit("false");
    reveal_strlit("auto");
    reveal_strlit("plain");
    reveal_strlit("fancy");
}

proof fn keys_are_apart()
    ensures
        is_apart("paint = "@),
        is_apart("underline = \""@),
        is_apart("tab_fix = "@),
        is_apart("picker = "@),
        is_apart("status_row = "@),
        is_apart("grammar = "@),
        is_apart("pause_ms = "@),
        is_apart("hover_ms = "@),
{
    reveal_strlit("paint = ");
    reveal_strlit("underline = \"");
    reveal_strlit("tab_fix = ");
    reveal_strlit("picker = ");
    reveal_strlit("status_row = ");
    reveal_strlit("grammar = ");
    reveal_strlit("pause_ms = ");
    reveal_strlit("hover_ms = ");
}

proof fn comments_are_apart()
    ensures
        is_apart("# Generated by `tuipo config`. Hand-edits are preserved on next"@),
        is_apart("# save, but unknown keys will fail to parse (see"@),
        is_apart("# `deny_unknown_fields` in src/config.rs)."@),
{
    reveal_strlit("# Generated by `tuipo config`. Hand-edits are preserved on next");
    reveal_strlit("# save, but unknown keys will fail to parse (see");
    reveal_strlit("# `deny_unknown_fields` in src/config.rs).");
}

proof fn fixed_lines_are_apart(c: Config)
    ensures
        forall|i: int| 0 <= i < c.fixed_lines().len() ==> is_apart(#[trigger] c.fixed_lines()[i]),
{
    values_are_apart(c);
    keys_are_apart();
    comments_are_apart();
    number_text_is_apart(c.pause_ms as nat);
    number_text_is_apart(c.hover_ms as nat);
    parts_are_apart("paint = "@, bool_text(c.paint), ""@);
    parts_are_apart("underline = \""@, mode_text(c.underline), "\""@);
    parts_are_apart("tab_fix = "@, bool_text(c.tab_fix), ""@);
    parts_are_apart("picker = "@, bool_text(c.picker), ""@);
    parts_are_apart("status_row = "@, bool_text(c.status_row), ""@);
    parts_are_apart("grammar = "@, bool_text(c.grammar), ""@);
    parts_are_apart("pause_ms = "@, number_text(c.pause_ms as nat), ""@);
    parts_are_apart("hover_ms = "@, number_text(c.hover_ms as nat), ""@);
}

/// The path of the word list is written exactly where it is set: its key is
/// found nowhere else in the text.
pub proof fn path_is_written_where_set(c: Config)
    ensures
        holds(c.toml(), "dict_path"@) == c.dict_path is Some,
{
    let key = "dict_path"@;
    let text = c.toml();
    let path = joined(c.path_lines());
    let n = joined(c.fixed_lines()).len() as int;
    joined_concat(c.fixed_lines(), c.path_lines());
    reveal_strlit("dict_path");
    if let Some(p) = c.dict_path {
        reveal_strlit("dict_path = \"");
        assert(c.path_lines().drop_last() =~= Seq::<Seq<char>>::empty());
        assert(joined(c.path_lines().drop_last()) =~= Seq::<char>::empty());
        assert(path =~= "dict_path = \""@ + escaped(p@) + "\""@ + seq!['\n']);
        assert(text.subrange(n, n + key.len()) =~= key);
    } else {
        fixed_lines_are_apart(c);
        assert(text =~= joined(c.fixed_lines()));
        joined_is_apart(c.fixed_lines());
        if holds(text, key) {
            let i = choose|i: int|
                0 <= i <= text.len() - key.len() && #[trigger] text.subrange(i, i + key.len())
                    == key;
            let part = text.subrange(i, i + key.len());
            assert(part[4] == '_' && part[5] == 'p');
            assert(text[i + 4] == '_' && text[i + 5] == 'p');
        }
    }
}

/// What stands between two parts of a line can be read back.
proof fn middle_is_told(start: Seq<char>, a: Seq<char>, b: Seq<char>, end: Seq<char>)
    requires
        start + a + end == start + b + end,
    ensures
        a == b,
{
    let x = start + a + end;
    let y = start + b + end;
    assert(x.len() == y.len());
    assert(x.subrange(start.len() as int, (start.len() + a.len()) as int) =~= a);
    assert(y.subrange(start.len() as int, (start.len() + b.len()) as int) =~= b);
    assert(a =~= b);
}

proof fn words_are_told(a: Config, b: Config)
    ensures
        forall|x: bool, y: bool| #[trigger] bool_text(x) == #[trigger] bool_text(y) ==> x == y,
        mode_text(a.underline) == mode_text(b.underline) ==> a.underline == b.underline,
{
    reveal_strlit("true");
    reveal_strlit("false");
    reveal_strlit("auto");
    reveal_strlit("plain");
    reveal_strlit("fancy");
    assert("true"@[0] != "false"@[0]);
    assert("auto"@[0] != "plain"@[0]);
    assert("auto"@[0] != "fancy"@[0]);
    assert("plain"@[0] != "fancy"@[0]);
}

proof fn fixed_lines_tell_settings(a: Config, b: Config)
    requires
        a.fixed_lines() == b.fixed_lines(),
    ensures
        a.paint == b.paint,
        a.underline == b.underline,
        a.tab_fix == b.tab_fix,
        a.picker == b.picker,
        a.status_row == b.status_row,
        a.grammar == b.grammar,
        a.pause_ms == b.pause_ms,
        a.hover_ms == b.hover_ms,
{
    let x = a.fixed_lines();
    let y = b.fixed_lines();
    words_are_told(a, b);
    assert(x[4] == y[4]);
    middle_is_told("paint = "@, bool_text(a.paint), bool_text(b.paint), ""@);
    assert(x[5] == y[5]);
    middle_is_told("underline = \""@, mode_text(a.underline), mode_text(b.underline), "\""@);
    assert(x[6] == y[6]);
    middle_is_told("tab_fix = "@, bool_text(a.tab_fix), bool_text(b.tab_fix), ""@);
    assert(x[7] == y[7]);
    middle_is_told("picker = "@, bool_text(a.picker), bool_text(b.picker), ""@);
    assert(x[8] == y[8]);
    middle_is_told("status_row = "@, bool_text(a.status_row), bool_text(b.status_row), ""@);
    assert(x[9] == y[9]);
    middle_is_told("grammar = "@, bool_text(a.grammar), bool_text(b.grammar), ""@);
    assert(x[10] == y[10]);
    let (pa, pb) = (a.pause_ms as nat, b.pause_ms as nat);
    middle_is_told("pause_ms = "@, number_text(pa), number_text(pb), ""@);
    number_texts_tell_numbers_apart(pa, pb);
    assert(x[11] == y[11]);
    let (ha, hb) = (a.hover_ms as nat, b.hover_ms as nat);
    middle_is_told("hover_ms = "@, number_text(ha), number_text(hb), ""@);
    number_texts_tell_numbers_apart(ha, hb);
}

/// Nothing is lost in writing: the text tells all nine settings, whatever the
/// path holds.
pub proof fn text_tells_settings(a: Config, b: Config)
    requires
        a.toml() == b.toml(),
    ensures
        a@ == b@,
{
    let pa = joined(a.path_lines());
    let pb = joined(b.path_lines());
    joined_concat(a.fixed_lines(), a.path_lines());
    joined_concat(b.fixed_lines(), b.path_lines());
    fixed_lines_are_lines(a);
    fixed_lines_are_lines(b);
    joined_lines(a.fixed_lines(), pa);
    joined_lines(b.fixed_lines(), pb);
    assert(lines(a.toml()).take(12) =~= a.fixed_lines());
    assert(lines(b.toml()).take(12) =~= b.fixed_lines());
    fixed_lines_tell_settings(a, b);
    let n = joined(a.fixed_lines()).len() as int;
    assert(a.toml().skip(n) =~= pa);
    assert(b.toml().skip(n) =~= pb);
    path_lines_tell_path(a, b);
}

proof fn path_lines_tell_path(a: Config, b: Config)
    requires
        joined(a.path_lines()) == joined(b.path_lines()),
    ensures
        match (a.dict_path, b.dict_path) {
            (Some(p), Some(q)) => p@ == q@,
            (None, None) => true,
            _ => false,
        },
{
    reveal_strlit("\"");
    path_line_is_quoted(a);
    path_line_is_quoted(b);
}

/// The line of a path is the path between quotes behind its key.
proof fn path_line_is_quoted(c: Config)
    ensures
        match c.dict_path {
            Some(p) => {
                let key = "dict_path = \""@;
                let line = joined(c.path_lines());
                &&& line.len() > 0
                &&& quoted_text(line.skip(key.len() as int)) == Some(
                    (p@, escaped(p@).len() as int + 1),
                )
            },
            None => joined(c.path_lines()).len() == 0,
        },
{
    if let Some(p) = c.dict_path {
        reveal_strlit("\"");
        let key = "dict_path = \""@;
        let all = c.path_lines();
        let line = joined(all);
        assert(all.drop_last() =~= Seq::<Seq<char>>::empty());
        assert(joined(all.drop_last()) =~= Seq::<char>::empty());
        assert(line =~= key + escaped(p@) + "\""@ + seq!['\n']);
        assert(line.skip(key.len() as int) =~= escaped(p@).push('"') + seq!['\n']);
        quoted_path_reads_back(p@, seq!['\n']);
    }
}

/// A value in a settings file.
#[derive(Debug)]
pub enum FileValue {
    Flag(bool),
    Number(i64),
    Text(String),
    /// A value that no setting has.
    Other,
}

/// What a `FileValue` holds.
pub enum FileValueView {
    Flag(bool),
    Number(int),
    Text(Seq<char>),
    Other,
}

impl View for FileValue {
    type V = FileValueView;

    open spec fn view(&self) -> FileValueView {
        match *self {
            FileValue::Flag(b) => FileValueView::Flag(b),
            FileValue::Number(n) => FileValueView::Number(n as int),
            FileValue::Text(s) => FileValueView::Text(s@),
            FileValue::Other => FileValueView::Other,
        }
    }
}

/// A key of a settings file and its value.
#[derive(Debug)]
pub struct FileEntry {
    pub key: String,
    pub value: FileValue,
}

/// The values of a settings file by their keys.
pub open spec fn table_of(entries: Seq<FileEntry>) -> Map<Seq<char>, FileValueView>
    decreases entries.len(),
{
    if entries.len() == 0 {
        Map::empty()
    } else {
        table_of(entries.drop_last()).insert(entries.last().key@, entries.last().value@)
    }
}

/// A line of a settings file.
pub enum FileLine {
    Comment(Seq<char>),
    Empty,
    Flag(Seq<char>, bool),
    Number(Seq<char>, nat),
    Text(Seq<char>, Seq<char>),
}

/// A line as it is written.
pub open spec fn line_text(line: FileLine) -> Seq<char> {
    match line {
        FileLine::Comment(s) => seq!['#'] + s,
        FileLine::Empty => Seq::empty(),
        FileLine::Flag(key, b) => key + " = "@ + bool_text(b),
        FileLine::Number(key, n) => key + " = "@ + number_text(n),
        FileLine::Text(key, text) => key + " = \""@ + escaped(text) + "\""@,
    }
}

/// The texts of lines.
pub open spec fn line_texts(all: Seq<FileLine>) -> Seq<Seq<char>> {
    all.map_values(|line: FileLine| line_text(line))
}

/// A file of these lines.
pub open spec fn file_text(all: Seq<FileLine>) -> Seq<char> {
    joined(line_texts(all))
}

/// The key and the value that a line sets.
pub open spec fn line_entry(line: FileLine) -> Option<(Seq<char>, FileValueView)> {
    match line {
        FileLine::Comment(_) => None,
        FileLine::Empty => None,
        FileLine::Flag(key, b) => Some((key, FileValueView::Flag(b))),
        FileLine::Number(key, n) => Some((key, FileValueView::Number(n as int))),
        FileLine::Text(key, text) => Some((key, FileValueView::Text(text))),
    }
}

/// The values that lines set, by their keys.
pub open spec fn lines_table(all: Seq<FileLine>) -> Map<Seq<char>, FileValueView>
    decreases all.len(),
{
    if all.len() == 0 {
        Map::empty()
    } else {
        let before = lines_table(all.drop_last());
        match line_entry(all.last()) {
            Some((key, value)) => before.insert(key, value),
            None => before,
        }
    }
}

/// Whether a character is an ASCII control character other than a tab.
pub open spec fn is_control(c: char) -> bool {
    (c < ' ' && c != '\t') || c == '\u{7F}'
}

pub open spec fn has_no_control(text: Seq<char>) -> bool {
    forall|i: int| 0 <= i < text.len() ==> !is_control(#[trigger] text[i])
}

/// Whether a key can be written without quotes.
pub open spec fn is_bare_key(key: Seq<char>) -> bool {
    &&& key.len() > 0
    &&& forall|i: int|
        0 <= i < key.len() ==> {
            let c = #[trigger] key[i];
            'a' <= c <= 'z' || 'A' <= c <= 'Z' || '0' <= c <= '9' || c == '_' || c == '-'
        }
}

/// Whether a line can be written as it is.
pub open spec fn is_plain_line(line: FileLine) -> bool {
    match line {
        FileLine::Comment(s) => has_no_control(s),
        FileLine::Empty => true,
        FileLine::Flag(key, _) => is_bare_key(key),
        FileLine::Number(key, n) => is_bare_key(key) && n <= i64::MAX,
        FileLine::Text(key, text) => is_bare_key(key) && has_no_control(text),
    }
}

/// Whether lines make a plain file: each can be written as it is, and no two
/// set the same key.
pub open spec fn is_plain_file(all: Seq<FileLine>) -> bool {
    &&& forall|i: int| 0 <= i < all.len() ==> is_plain_line(#[trigger] all[i])
    &&& forall|i: int, j: int|
        0 <= i < j < all.len() && line_entry(#[trigger] all[i]) is Some && line_entry(
            #[trigger] all[j],
        ) is Some ==> (line_entry(all[i])->0).0 != (line_entry(all[j])->0).0
}

/// The values of a TOML text by their keys, or none where it is no TOML.
pub uninterp spec fn toml_table(text: Seq<char>) -> Option<Map<Seq<char>, FileValueView>>;

/// `toml::Table::from_str` parses a TOML text. Each entry of the table is
/// copied; of values that are no flags, integers or strings only that they are
/// there. By the grammar of TOML, a text of comments, empty lines and lines of
/// a key, an equals sign and a value has exactly the values of those lines.
#[verifier::external_body]
fn parse_table(text: &str) -> (r: Option<Vec<FileEntry>>)
    ensures
        toml_table(text@) == match r {
            Some(entries) => Some(table_of(entries@)),
            None => None,
        },
        r matches Some(entries) ==> has_distinct_keys(entries@),
        forall|all: Seq<FileLine>|
            is_plain_file(all) && #[trigger] file_text(all) == text@ ==> r is Some && table_of(
                r->0@,
            ) == lines_table(all),
{
    let table = text.parse::<toml::Table>().ok()?;
    Some(table.into_iter().map(|(key, value)| FileEntry {
        key,
        value: match value {
            toml::Value::Boolean(b) => FileValue::Flag(b),
            toml::Value::Integer(n) => FileValue::Number(n),
            toml::Value::String(s) => FileValue::Text(s),
            _ => FileValue::Other,
        },
    }).collect())
}

/// The underline mode of this name.
pub open spec fn mode_named(name: Seq<char>) -> Option<UnderlineMode> {
    if name == "auto"@ {
        Some(UnderlineMode::Auto)
    } else if name == "plain"@ {
        Some(UnderlineMode::Plain)
    } else if name == "fancy"@ {
        Some(UnderlineMode::Fancy)
    } else {
        None
    }
}

/// The settings with the one of this key changed. None where there is no such
/// setting or it cannot have this value.
pub open spec fn with_setting(c: ConfigView, key: Seq<char>, value: FileValueView) -> Option<
    ConfigView,
> {
    match value {
        FileValueView::Flag(b) => if key == "paint"@ {
            Some(ConfigView { paint: b, ..c })
        } else if key == "tab_fix"@ {
            Some(ConfigView { tab_fix: b, ..c })
        } else if key == "picker"@ {
            Some(ConfigView { picker: b, ..c })
        } else if key == "status_row"@ {
            Some(ConfigView { status_row: b, ..c })
        } else if key == "grammar"@ {
            Some(ConfigView { grammar: b, ..c })
        } else {
            None
        },
        FileValueView::Number(n) => if n < 0 {
            None
        } else if key == "pause_ms"@ {
            Some(ConfigView { pause_ms: n, ..c })
        } else if key == "hover_ms"@ {
            Some(ConfigView { hover_ms: n, ..c })
        } else {
            None
        },
        FileValueView::Text(text) => if key == "dict_path"@ {
            Some(ConfigView { dict_path: Some(text), ..c })
        } else if key == "underline"@ {
            match mode_named(text) {
                Some(mode) => Some(ConfigView { underline: mode, ..c }),
                None => None,
            }
        } else {
            None
        },
        FileValueView::Other => None,
    }
}

/// Whether a setting of this key can have this value.
pub open spec fn fits(key: Seq<char>, value: FileValueView) -> bool {
    with_setting(ConfigView::init(), key, value) is Some
}

pub open spec fn flag_in(
    table: Map<Seq<char>, FileValueView>,
    key: Seq<char>,
    otherwise: bool,
) -> bool {
    if table.contains_key(key) && table[key] is Flag {
        table[key]->Flag_0
    } else {
        otherwise
    }
}

pub open spec fn number_in(
    table: Map<Seq<char>, FileValueView>,
    key: Seq<char>,
    otherwise: int,
) -> int {
    if table.contains_key(key) && table[key] is Number {
        table[key]->Number_0
    } else {
        otherwise
    }
}

pub open spec fn text_in(table: Map<Seq<char>, FileValueView>, key: Seq<char>) -> Option<
    Seq<char>,
> {
    if table.contains_key(key) && table[key] is Text {
        Some(table[key]->Text_0)
    } else {
        None
    }
}

pub open spec fn mode_in(table: Map<Seq<char>, FileValueView>, key: Seq<char>) -> UnderlineMode {
    match text_in(table, key) {
        Some(name) => match mode_named(name) {
            Some(mode) => mode,
            None => UnderlineMode::Auto,
        },
        None => UnderlineMode::Auto,
    }
}

impl ConfigView {
    /// The settings without a file.
    pub open spec fn init() -> ConfigView {
        ConfigView {
            paint: true,
            underline: UnderlineMode::Auto,
            tab_fix: false,
            picker: false,
            status_row: false,
            grammar: false,
            pause_ms: DEFAULT_PAUSE_MS as int,
            hover_ms: DEFAULT_HOVER_MS as int,
            dict_path: None,
        }
    }

    /// The settings of a table; defaults stand in for missing ones.
    pub open spec fn read(table: Map<Seq<char>, FileValueView>) -> ConfigView {
        ConfigView {
            paint: flag_in(table, "paint"@, true),
            underline: mode_in(table, "underline"@),
            tab_fix: flag_in(table, "tab_fix"@, false),
            picker: flag_in(table, "picker"@, false),
            status_row: flag_in(table, "status_row"@, false),
            grammar: flag_in(table, "grammar"@, false),
            pause_ms: number_in(table, "pause_ms"@, DEFAULT_PAUSE_MS as int),
            hover_ms: number_in(table, "hover_ms"@, DEFAULT_HOVER_MS as int),
            dict_path: text_in(table, "dict_path"@),
        }
    }
}

/// The settings that a table holds. None where it has an unknown key or a
/// value of the wrong kind.
pub open spec fn settings_in(table: Map<Seq<char>, FileValueView>) -> Option<ConfigView> {
    if forall|key: Seq<char>| #[trigger] table.contains_key(key) ==> fits(key, table[key]) {
        Some(ConfigView::read(table))
    } else {
        None
    }
}

pub open spec fn config_view(c: Option<Config>) -> Option<ConfigView> {
    match c {
        Some(c) => Some(c@),
        None => None,
    }
}

proof fn keys_differ()
    ensures
        "paint"@ != "tab_fix"@,
        "paint"@ != "picker"@,
        "paint"@ != "status_row"@,
        "paint"@ != "grammar"@,
        "paint"@ != "underline"@,
        "paint"@ != "pause_ms"@,
        "paint"@ != "hover_ms"@,
        "paint"@ != "dict_path"@,
        "underline"@ != "tab_fix"@,
        "underline"@ != "picker"@,
        "underline"@ != "status_row"@,
        "underline"@ != "grammar"@,
        "underline"@ != "pause_ms"@,
        "underline"@ != "hover_ms"@,
        "underline"@ != "dict_path"@,
        "tab_fix"@ != "picker"@,
        "tab_fix"@ != "status_row"@,
        "tab_fix"@ != "grammar"@,
        "tab_fix"@ != "pause_ms"@,
        "tab_fix"@ != "hover_ms"@,
        "tab_fix"@ != "dict_path"@,
        "picker"@ != "status_row"@,
        "picker"@ != "grammar"@,
        "picker"@ != "pause_ms"@,
        "picker"@ != "hover_ms"@,
        "picker"@ != "dict_path"@,
        "status_row"@ != "grammar"@,
        "status_row"@ != "pause_ms"@,
        "status_row"@ != "hover_ms"@,
        "status_row"@ != "dict_path"@,
        "grammar"@ != "pause_ms"@,
        "grammar"@ != "hover_ms"@,
        "grammar"@ != "dict_path"@,
        "pause_ms"@ != "hover_ms"@,
        "pause_ms"@ != "dict_path"@,
        "hover_ms"@ != "dict_path"@,
{
    reveal_strlit("paint");
    reveal_strlit("underline");
    reveal_strlit("tab_fix");
    reveal_strlit("picker");
    reveal_strlit("status_row");
    reveal_strlit("grammar");
    reveal_strlit("pause_ms");
    reveal_strlit("hover_ms");
    reveal_strlit("dict_path");
    assert("paint"@.len() == 5);
    assert("picker"@.len() == 6);
    assert("tab_fix"@.len() == 7);
    assert("pause_ms"@.len() == 8);
    assert("underline"@.len() == 9);
    assert("status_row"@.len() == 10);
    assert("tab_fix"@[0] != "grammar"@[0]);
    assert("pause_ms"@[0] != "hover_ms"@[0]);
    assert("underline"@[0] != "dict_path"@[0]);
}

/// One more entry changes the setting of its key and no other.
proof fn entry_changes_setting(
    table: Map<Seq<char>, FileValueView>,
    key: Seq<char>,
    value: FileValueView,
)
    requires
        fits(key, value),
    ensures
        with_setting(ConfigView::read(table), key, value) == Some(
            ConfigView::read(table.insert(key, value)),
        ),
{
    keys_differ();
    let after = ConfigView::read(table.insert(key, value));
    let r = with_setting(ConfigView::read(table), key, value);
    assert(r is Some);
    assert(r->0 =~= after);
}

fn mode_of(name: &str) -> (r: Option<UnderlineMode>)
    ensures
        r == mode_named(name@),
{
    if same_text(name, "auto") {
        Some(UnderlineMode::Auto)
    } else if same_text(name, "plain") {
        Some(UnderlineMode::Plain)
    } else if same_text(name, "fancy") {
        Some(UnderlineMode::Fancy)
    } else {
        None
    }
}

/// Changes the setting of a key. False, and nothing changed, where there is no
/// such setting or it cannot have this value.
fn change_setting(c: &mut Config, entry: &FileEntry) -> (r: bool)
    ensures
        match with_setting(old(c)@, entry.key@, entry.value@) {
            Some(after) => r && final(c)@ == after,
            None => !r && final(c)@ == old(c)@,
        },
{
    let key = entry.key.as_str();
    match &entry.value {
        FileValue::Flag(b) => if same_text(key, "paint") {
            c.paint = *b;
            true
        } else if same_text(key, "tab_fix") {
            c.tab_fix = *b;
            true
        } else if same_text(key, "picker") {
            c.picker = *b;
            true
        } else if same_text(key, "status_row") {
            c.status_row = *b;
            true
        } else if same_text(key, "grammar") {
            c.grammar = *b;
            true
        } else {
            false
        },
        FileValue::Number(n) => if *n < 0 {
            false
        } else if same_text(key, "pause_ms") {
            c.pause_ms = *n as u64;
            true
        } else if same_text(key, "hover_ms") {
            c.hover_ms = *n as u64;
            true
        } else {
            false
        },
        FileValue::Text(text) => if same_text(key, "dict_path") {
            c.dict_path = Some(text.clone());
            true
        } else if same_text(key, "underline") {
            match mode_of(text.as_str()) {
                Some(mode) => {
                    c.underline = mode;
                    true
                },
                None => false,
            }
        } else {
            false
        },
        FileValue::Other => false,
    }
}

/// Whether no key occurs twice.
pub open spec fn has_distinct_keys(entries: Seq<FileEntry>) -> bool {
    forall|i: int, j: int|
        0 <= i < j < entries.len() ==> (#[trigger] entries[i]).key@ != (#[trigger] entries[j]).key@
}

proof fn table_holds_entries(entries: Seq<FileEntry>, k: int)
    requires
        has_distinct_keys(entries),
        0 <= k < entries.len(),
    ensures
        table_of(entries).contains_key(entries[k].key@),
        table_of(entries)[entries[k].key@] == entries[k].value@,
    decreases entries.len(),
{
    let init = entries.drop_last();
    if k < init.len() {
        assert(has_distinct_keys(init)) by {
            assert forall|i: int, j: int| 0 <= i < j < init.len() implies (#[trigger] init[i]).key@
                != (#[trigger] init[j]).key@ by {
                assert(init[i] == entries[i] && init[j] == entries[j]);
            }
        }
        table_holds_entries(init, k);
        assert(init[k] == entries[k]);
        assert(entries[k].key@ != entries[entries.len() - 1].key@);
    }
}

impl Config {
    /// The settings that the entries of a file hold, with defaults for missing
    /// ones. None where there is an unknown key or a value of the wrong kind.
    pub fn from_entries(entries: &Vec<FileEntry>) -> (r: Option<Config>)
        requires
            has_distinct_keys(entries@),
        ensures
            config_view(r) == settings_in(table_of(entries@)),
    {
        let mut c = Config::default();
        let mut i: usize = 0;
        proof {
            assert(entries@.take(0) =~= Seq::<FileEntry>::empty());
            assert(c@ =~= ConfigView::read(table_of(entries@.take(0))));
        }
        while i < entries.len()
            invariant
                has_distinct_keys(entries@),
                i <= entries@.len(),
                c@ == ConfigView::read(table_of(entries@.take(i as int))),
                forall|key: Seq<char>| #[trigger]
                    table_of(entries@.take(i as int)).contains_key(key) ==> fits(
                        key,
                        table_of(entries@.take(i as int))[key],
                    ),
            decreases entries@.len() - i,
        {
            let ghost before = table_of(entries@.take(i as int));
            let ghost entry = entries@[i as int];
            proof {
                assert(entries@.take(i + 1).drop_last() =~= entries@.take(i as int));
                assert(entries@.take(i + 1).last() == entry);
                assert(table_of(entries@.take(i + 1)) == before.insert(entry.key@, entry.value@));
            }
            if !change_setting(&mut c, &entries[i]) {
                proof {
                    table_holds_entries(entries@, i as int);
                    assert(!fits(entry.key@, entry.value@));
                }
                return None;
            }
            proof {
                assert(fits(entry.key@, entry.value@));
                entry_changes_setting(before, entry.key@, entry.value@);
            }
            i += 1;
        }
        proof {
            assert(entries@.take(i as int) =~= entries@);
        }
        Some(c)
    }

    /// The lines of the settings file.
    pub open spec fn file_lines(&self) -> Seq<FileLine> {
        seq![
            FileLine::Comment(" Generated by `tuipo config`. Hand-edits are preserved on next"@),
            FileLine::Comment(" save, but unknown keys will fail to parse (see"@),
            FileLine::Comment(" `deny_unknown_fields` in src/config.rs)."@),
            FileLine::Empty,
            FileLine::Flag("paint"@, self.paint),
            FileLine::Text("underline"@, mode_text(self.underline)),
            FileLine::Flag("tab_fix"@, self.tab_fix),
            FileLine::Flag("picker"@, self.picker),
            FileLine::Flag("status_row"@, self.status_row),
            FileLine::Flag("grammar"@, self.grammar),
            FileLine::Number("pause_ms"@, self.pause_ms as nat),
            FileLine::Number("hover_ms"@, self.hover_ms as nat),
        ] + match self.dict_path {
            Some(p) => seq![FileLine::Text("dict_path"@, p@)],
            None => Seq::empty(),
        }
    }

    /// Whether the settings can be read back from the file: TOML has no
    /// larger integers, and strings on one line hold no control characters.
    pub open spec fn is_readable(&self) -> bool {
        &&& self.pause_ms <= i64::MAX
        &&& self.hover_ms <= i64::MAX
        &&& self.dict_path matches Some(p) ==> has_no_control(p@)
    }

    /// Reads the settings from the text of a TOML file, with defaults for
    /// missing ones. None where the text is no TOML, has an unknown key or a
    /// value of the wrong kind. What `to_toml_string` writes is read back as
    /// it was.
    pub fn from_toml(text: &str) -> (r: Option<Config>)
        ensures
            config_view(r) == match toml_table(text@) {
                Some(table) => settings_in(table),
                None => None,
            },
            forall|c: Config|
                c.is_readable() && #[trigger] c.toml() == text@ ==> config_view(r) == Some(c@),
    {
        let table = parse_table(text);
        proof {
            assert forall|c: Config| c.is_readable() && #[trigger] c.toml() == text@ implies table
                is Some && settings_in(table_of(table->0@)) == Some(c@) by {
                file_lines_are_written(c);
                file_lines_are_plain(c);
                lines_hold_settings(c);
                assert(file_text(c.file_lines()) == text@);
            }
        }
        match table {
            Some(entries) => Config::from_entries(&entries),
            None => None,
        }
    }
}

/// Text without backslashes and quotes is written as it is.
proof fn plain_text_is_not_escaped(text: Seq<char>)
    requires
        forall|i: int| 0 <= i < text.len() ==> #[trigger] text[i] != '\\' && text[i] != '"',
    ensures
        escaped(text) == text,
    decreases text.len(),
{
    if text.len() > 0 {
        let init = text.drop_last();
        assert forall|i: int| 0 <= i < init.len() implies #[trigger] init[i] != '\\' && init[i]
            != '"' by {
            assert(init[i] == text[i]);
        }
        plain_text_is_not_escaped(init);
        assert(text[text.len() - 1] != '\\' && text[text.len() - 1] != '"');
        assert(init.push(text.last()) =~= text);
    } else {
        assert(escaped(text) =~= text);
    }
}

proof fn mode_is_not_escaped(mode: UnderlineMode)
    ensures
        escaped(mode_text(mode)) == mode_text(mode),
        has_no_control(mode_text(mode)),
        mode_named(mode_text(mode)) == Some(mode),
{
    reveal_strlit("auto");
    reveal_strlit("plain");
    reveal_strlit("fancy");
    assert("auto"@[0] != "plain"@[0]);
    assert("auto"@[0] != "fancy"@[0]);
    assert("plain"@[0] != "fancy"@[0]);
    plain_text_is_not_escaped(mode_text(mode));
}

/// A key and its value with the equals sign between.
proof fn flag_line_is_written(start: Seq<char>, key: Seq<char>, value: Seq<char>)
    requires
        start == key + " = "@,
    ensures
        start + value + ""@ == key + " = "@ + value,
{
    reveal_strlit("");
    assert(start + value + ""@ =~= key + " = "@ + value);
}

proof fn keys_start_lines()
    ensures
        "paint = "@ == "paint"@ + " = "@,
        "tab_fix = "@ == "tab_fix"@ + " = "@,
        "picker = "@ == "picker"@ + " = "@,
        "status_row = "@ == "status_row"@ + " = "@,
        "grammar = "@ == "grammar"@ + " = "@,
        "pause_ms = "@ == "pause_ms"@ + " = "@,
        "hover_ms = "@ == "hover_ms"@ + " = "@,
        "underline = \""@ == "underline"@ + " = \""@,
        "dict_path = \""@ == "dict_path"@ + " = \""@,
{
    reveal_strlit(" = ");
    reveal_strlit(" = \"");
    reveal_strlit("paint");
    reveal_strlit("paint = ");
    assert("paint = "@ =~= "paint"@ + " = "@);
    reveal_strlit("tab_fix");
    reveal_strlit("tab_fix = ");
    assert("tab_fix = "@ =~= "tab_fix"@ + " = "@);
    reveal_strlit("picker");
    reveal_strlit("picker = ");
    assert("picker = "@ =~= "picker"@ + " = "@);
    reveal_strlit("status_row");
    reveal_strlit("status_row = ");
    assert("status_row = "@ =~= "status_row"@ + " = "@);
    reveal_strlit("grammar");
    reveal_strlit("grammar = ");
    assert("grammar = "@ =~= "grammar"@ + " = "@);
    reveal_strlit("pause_ms");
    reveal_strlit("pause_ms = ");
    assert("pause_ms = "@ =~= "pause_ms"@ + " = "@);
    reveal_strlit("hover_ms");
    reveal_strlit("hover_ms = ");
    assert("hover_ms = "@ =~= "hover_ms"@ + " = "@);
    reveal_strlit("underline");
    reveal_strlit("underline = \"");
    assert("underline = \""@ =~= "underline"@ + " = \""@);
    reveal_strlit("dict_path");
    reveal_strlit("dict_path = \"");
    assert("dict_path = \""@ =~= "dict_path"@ + " = \""@);
}

proof fn comments_are_written()
    ensures
        "# Generated by `tuipo config`. Hand-edits are preserved on next"@ == seq!['#']
            + " Generated by `tuipo config`. Hand-edits are preserved on next"@,
        "# save, but unknown keys will fail to parse (see"@ == seq!['#']
            + " save, but unknown keys will fail to parse (see"@,
        "# `deny_unknown_fields` in src/config.rs)."@ == seq!['#']
            + " `deny_unknown_fields` in src/config.rs)."@,
        has_no_control(" Generated by `tuipo config`. Hand-edits are preserved on next"@),
        has_no_control(" save, but unknown keys will fail to parse (see"@),
        has_no_control(" `deny_unknown_fields` in src/config.rs)."@),
{
    reveal_strlit("# Generated by `tuipo config`. Hand-edits are preserved on next");
    reveal_strlit(" Generated by `tuipo config`. Hand-edits are preserved on next");
    assert("# Generated by `tuipo config`. Hand-edits are preserved on next"@ =~= seq!['#']
        + " Generated by `tuipo config`. Hand-edits are preserved on next"@);
    reveal_strlit("# save, but unknown keys will fail to parse (see");
    reveal_strlit(" save, but unknown keys will fail to parse (see");
    assert("# save, but unknown keys will fail to parse (see"@ =~= seq!['#']
        + " save, but unknown keys will fail to parse (see"@);
    reveal_strlit("# `deny_unknown_fields` in src/config.rs).");
    reveal_strlit(" `deny_unknown_fields` in src/config.rs).");
    assert("# `deny_unknown_fields` in src/config.rs)."@ =~= seq!['#']
        + " `deny_unknown_fields` in src/config.rs)."@);
}

/// The settings file is made of its lines.
proof fn file_lines_are_written(c: Config)
    ensures
        file_text(c.file_lines()) == c.toml(),
{
    let all = c.file_lines();
    let texts = c.fixed_lines() + c.path_lines();
    comments_are_written();
    keys_start_lines();
    mode_is_not_escaped(c.underline);
    reveal_strlit("");
    flag_line_is_written("paint = "@, "paint"@, bool_text(c.paint));
    flag_line_is_written("tab_fix = "@, "tab_fix"@, bool_text(c.tab_fix));
    flag_line_is_written("picker = "@, "picker"@, bool_text(c.picker));
    flag_line_is_written("status_row = "@, "status_row"@, bool_text(c.status_row));
    flag_line_is_written("grammar = "@, "grammar"@, bool_text(c.grammar));
    flag_line_is_written("pause_ms = "@, "pause_ms"@, number_text(c.pause_ms as nat));
    flag_line_is_written("hover_ms = "@, "hover_ms"@, number_text(c.hover_ms as nat));
    assert(""@ =~= Seq::<char>::empty());
    assert forall|i: int| 0 <= i < all.len() implies line_text(#[trigger] all[i]) == texts[i] by {}
    assert(line_texts(all) =~= texts);
}

proof fn keys_are_bare()
    ensures
        is_bare_key("paint"@),
        is_bare_key("underline"@),
        is_bare_key("tab_fix"@),
        is_bare_key("picker"@),
        is_bare_key("status_row"@),
        is_bare_key("grammar"@),
        is_bare_key("pause_ms"@),
        is_bare_key("hover_ms"@),
        is_bare_key("dict_path"@),
{
    reveal_strlit("paint");
    reveal_strlit("underline");
    reveal_strlit("tab_fix");
    reveal_strlit("picker");
    reveal_strlit("status_row");
    reveal_strlit("grammar");
    reveal_strlit("pause_ms");
    reveal_strlit("hover_ms");
    reveal_strlit("dict_path");
}

proof fn file_lines_are_plain(c: Config)
    requires
        c.is_readable(),
    ensures
        is_plain_file(c.file_lines()),
{
    comments_are_written();
    keys_are_bare();
    keys_differ();
    mode_is_not_escaped(c.underline);
}

/// The lines of the settings file hold its settings.
proof fn lines_hold_settings(c: Config)
    ensures
        settings_in(lines_table(c.file_lines())) == Some(c@),
{
    let all = c.file_lines();
    let table = lines_table(all);
    keys_differ();
    mode_is_not_escaped(c.underline);
    file_table(c);
    assert(ConfigView::read(table) =~= c@);
}

/// The table of the settings file, entry by entry.
proof fn file_table(c: Config)
    ensures
        lines_table(c.file_lines()) == {
            let fixed = Map::<Seq<char>, FileValueView>::empty().insert(
                "paint"@,
                FileValueView::Flag(c.paint),
            ).insert("underline"@, FileValueView::Text(mode_text(c.underline))).insert(
                "tab_fix"@,
                FileValueView::Flag(c.tab_fix),
            ).insert("picker"@, FileValueView::Flag(c.picker)).insert(
                "status_row"@,
                FileValueView::Flag(c.status_row),
            ).insert("grammar"@, FileValueView::Flag(c.grammar)).insert(
                "pause_ms"@,
                FileValueView::Number(c.pause_ms as int),
            ).insert("hover_ms"@, FileValueView::Number(c.hover_ms as int));
            match c.dict_path {
                Some(p) => fixed.insert("dict_path"@, FileValueView::Text(p@)),
                None => fixed,
            }
        },
{
    let all = c.file_lines();
    if c.dict_path is Some {
        table_step(all, 12);
    }
    table_step(all, 11);
    table_step(all, 10);
    table_step(all, 9);
    table_step(all, 8);
    table_step(all, 7);
    table_step(all, 6);
    table_step(all, 5);
    table_step(all, 4);
    table_step(all, 3);
    table_step(all, 2);
    table_step(all, 1);
    table_step(all, 0);
    assert(all.take(0) =~= Seq::<FileLine>::empty());
    assert(all.take(all.len() as int) =~= all);
}

proof fn table_step(all: Seq<FileLine>, k: int)
    requires
        0 <= k < all.len(),
    ensures
        lines_table(all.take(k + 1)) == match line_entry(all[k]) {
            Some((key, value)) => lines_table(all.take(k)).insert(key, value),
            None => lines_table(all.take(k)),
        },
{
    assert(all.take(k + 1).drop_last() =~= all.take(k));
}

/// The picker is only reached by Tab, so it always comes with the Tab key
/// intercepted.
pub proof fn picker_implies_tab_fix(config: Config, env: EnvOverrides)
    ensures
        config.picker ==> config.tab_fix_on(&env),
        config.resolved(&env).picker ==> config.resolved(&env).tab_fix,
{
}

/// Painting is the master switch: with it off, by the file or by the variable,
/// neither Tab nor the picker is turned on.
pub proof fn paint_off_turns_all_off(config: Config, env: EnvOverrides)
    requires
        !config.paint || env.paint_off,
    ensures
        !config.resolved(&env).paint,
        !config.resolved(&env).tab_fix,
        !config.resolved(&env).picker,
{
}

/// A variable wins over the file.
pub proof fn variables_win(config: Config, env: EnvOverrides)
    ensures
        env.paint_off ==> !config.paint_on(&env),
        env_is(env.tab_fix, "1"@) ==> config.tab_fix_on(&env),
        env_is(env.status, "on"@) ==> config.status_on(&env),
        env_is(env.grammar, "1"@) ==> config.grammar_on(&env),
        env.plain_underline ==> config.style(&env) == PLAIN,
        env.fancy_underline && !env.plain_underline ==> config.style(&env) == FANCY,
{
}

/// Whether no variable asks for anything.
pub open spec fn asks_nothing(env: EnvOverrides) -> bool {
    &&& !env.paint_off && !env.plain_underline && !env.fancy_underline
    &&& env.tab_fix matches Some(v) ==> v@ != "1"@
    &&& env.status matches Some(v) ==> v@ != "on"@
    &&& env.grammar matches Some(v) ==> v@ != "1"@
}

/// Without variables the file decides: each setting is the one of its key, the
/// picker brings Tab with it, and times are the milliseconds of the file.
pub proof fn file_decides_without_variables(c: Config, env: EnvOverrides)
    requires
        asks_nothing(env),
    ensures
        ({
            let s = c.resolved(&env);
            &&& s.paint == c.paint
            &&& c.paint ==> s.picker == c.picker
            &&& c.paint ==> s.tab_fix == (c.tab_fix || c.picker)
            &&& s.status_row == c.status_row
            &&& s.grammar == c.grammar
            &&& s.pause.nanos == c.pause_ms * 1_000_000
            &&& s.hover.nanos == c.hover_ms * 1_000_000
            &&& c.underline == UnderlineMode::Plain ==> s.style == UnderlineStyle::Plain
            &&& c.underline == UnderlineMode::Fancy ==> s.style == UnderlineStyle::Fancy
            &&& c.underline == UnderlineMode::Auto && (env.term_program matches Some(t) && t@
                == "Apple_Terminal"@) ==> s.style == UnderlineStyle::Plain
            &&& c.underline == UnderlineMode::Auto && (env.term_program matches Some(t) ==> t@
                != "Apple_Terminal"@) ==> s.style == UnderlineStyle::Fancy
        }),
{
}

/// Each variable turns on its own setting and no other.
pub proof fn each_variable_has_its_setting(c: Config, env: EnvOverrides)
    ensures
        ({
            let s = c.resolved(&env);
            &&& s.paint == (c.paint && !env.paint_off)
            &&& s.paint && (env.tab_fix matches Some(v) && v@ == "1"@) ==> s.tab_fix
            &&& s.paint && (env.tab_fix matches Some(v) ==> v@ != "1"@) ==> s.tab_fix == (c.tab_fix
                || c.picker)
            &&& s.paint ==> s.picker == c.picker
            &&& (env.status matches Some(v) && v@ == "on"@) ==> s.status_row
            &&& (env.status matches Some(v) ==> v@ != "on"@) ==> s.status_row == c.status_row
            &&& (env.grammar matches Some(v) && v@ == "1"@) ==> s.grammar
            &&& (env.grammar matches Some(v) ==> v@ != "1"@) ==> s.grammar == c.grammar
            &&& env.plain_underline ==> s.style == UnderlineStyle::Plain
            &&& !env.plain_underline && env.fancy_underline ==> s.style == UnderlineStyle::Fancy
        }),
{
}

/// A file that is read has no unknown key, and each of its values counts.
pub proof fn read_values_count(table: Map<Seq<char>, FileValueView>, c: ConfigView)
    requires
        settings_in(table) == Some(c),
    ensures
        table.contains_key("paint"@) ==> table["paint"@] == FileValueView::Flag(c.paint),
        table.contains_key("tab_fix"@) ==> table["tab_fix"@] == FileValueView::Flag(c.tab_fix),
        table.contains_key("picker"@) ==> table["picker"@] == FileValueView::Flag(c.picker),
        table.contains_key("status_row"@) ==> table["status_row"@] == FileValueView::Flag(
            c.status_row,
        ),
        table.contains_key("grammar"@) ==> table["grammar"@] == FileValueView::Flag(c.grammar),
        table.contains_key("pause_ms"@) ==> table["pause_ms"@] == FileValueView::Number(c.pause_ms)
            && c.pause_ms >= 0,
        table.contains_key("hover_ms"@) ==> table["hover_ms"@] == FileValueView::Number(c.hover_ms)
            && c.hover_ms >= 0,
        table.contains_key("dict_path"@) ==> (table["dict_path"@] matches FileValueView::Text(t)
            && c.dict_path == Some(t)),
        table.contains_key("underline"@) ==> (table["underline"@] matches FileValueView::Text(t)
            && ((t == "auto"@ && c.underline == UnderlineMode::Auto) || (t == "plain"@
            && c.underline == UnderlineMode::Plain) || (t == "fancy"@ && c.underline
            == UnderlineMode::Fancy))),
        forall|key: Seq<char>| #[trigger]
            table.contains_key(key) ==> key == "paint"@ || key == "underline"@ || key == "tab_fix"@
                || key == "picker"@ || key == "status_row"@ || key == "grammar"@ || key
                == "pause_ms"@ || key == "hover_ms"@ || key == "dict_path"@,
{
    keys_differ();
    assert(table.contains_key("paint"@) ==> fits("paint"@, table["paint"@]));
    assert(table.contains_key("tab_fix"@) ==> fits("tab_fix"@, table["tab_fix"@]));
    assert(table.contains_key("picker"@) ==> fits("picker"@, table["picker"@]));
    assert(table.contains_key("status_row"@) ==> fits("status_row"@, table["status_row"@]));
    assert(table.contains_key("grammar"@) ==> fits("grammar"@, table["grammar"@]));
    assert(table.contains_key("pause_ms"@) ==> fits("pause_ms"@, table["pause_ms"@]));
    assert(table.contains_key("hover_ms"@) ==> fits("hover_ms"@, table["hover_ms"@]));
    assert(table.contains_key("dict_path"@) ==> fits("dict_path"@, table["dict_path"@]));
    assert(table.contains_key("underline"@) ==> fits("underline"@, table["underline"@]));
}

/// What a file does not set has its default.
pub proof fn missing_keys_have_defaults(table: Map<Seq<char>, FileValueView>, c: ConfigView)
    requires
        settings_in(table) == Some(c),
    ensures
        !table.contains_key("paint"@) ==> c.paint,
        !table.contains_key("underline"@) ==> c.underline == UnderlineMode::Auto,
        !table.contains_key("tab_fix"@) ==> !c.tab_fix,
        !table.contains_key("picker"@) ==> !c.picker,
        !table.contains_key("status_row"@) ==> !c.status_row,
        !table.contains_key("grammar"@) ==> !c.grammar,
        !table.contains_key("pause_ms"@) ==> c.pause_ms == 150,
        !table.contains_key("hover_ms"@) ==> c.hover_ms == 250,
        !table.contains_key("dict_path"@) ==> c.dict_path is None,
{
}

/// A file whose keys are known and whose values are of their kinds is read.
pub proof fn good_files_are_read(table: Map<Seq<char>, FileValueView>)
    requires
        forall|key: Seq<char>| #[trigger]
            table.contains_key(key) ==> {
                ||| (key == "paint"@ || key == "tab_fix"@ || key == "picker"@ || key
                    == "status_row"@ || key == "grammar"@) && table[key] is Flag
                ||| (key == "pause_ms"@ || key == "hover_ms"@) && table[key] is Number
                    && table[key]->Number_0 >= 0
                ||| key == "dict_path"@ && table[key] is Text
                ||| key == "underline"@ && (table[key] == FileValueView::Text("auto"@)
                    || table[key] == FileValueView::Text("plain"@) || table[key]
                    == FileValueView::Text("fancy"@))
            },
    ensures
        settings_in(table) is Some,
{
    keys_differ();
    assert forall|key: Seq<char>| #[trigger] table.contains_key(key) implies fits(
        key,
        table[key],
    ) by {}
}

/// A number is written with its decimal digits.
pub proof fn numbers_are_written_in_digits(n: nat)
    ensures
        number_text(n).len() == digits(n).len(),
        forall|i: int|
            0 <= i < digits(n).len() ==> (#[trigger] number_text(n)[i]) as int == digits(n)[i],
        crate::text::spelled(digits(n)) == n,
{
    crate::text::digits_spell_the_number(n);
    assert forall|i: int| 0 <= i < digits(n).len() implies (#[trigger] number_text(n)[i]) as int
        == digits(n)[i] by {
        assert(number_text(n)[i] == digits(n)[i] as char);
    }
}

} // verus!
