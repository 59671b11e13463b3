//! Pause-aware inline annotation painter.
//!
//! When the user pauses, each misspelled word is underlined where the screen
//! shows it. The place is found by looking for the buffer text in the screen
//! grid; word positions are followed from there.
//!
//! An underline stays with its cell until the cell is rewritten. Each paint
//! therefore compares what was underlined before with what is to be
//! underlined now, and rewrites the cells that fell out from the grid without
//! the underline. Cells that the grid does not know are tried again with the
//! next paint.
//!
//! Painted are issues that are shown at all, have a suggestion, are not the
//! word being typed, and lie on one row.

use crate::ansi::{drawn, drawn_from, finish, pen_after, pos, tokens_bytes, Pos, Stroke};
use crate::clock::{Duration, Instant};
use crate::config::{Settings, DEFAULT_PAUSE_MS};
use crate::dict::lowercase;
use crate::echo::{anchor_line, anchor_start, content_end, EchoMatcher, EchoModel};
use crate::grid::{cell, glyph, in_a_row, latest_shown, place_of, same_glyph, shown_at, shows};
use crate::grid::{walked, walked_on, Cell, Walk};
use crate::screen::{at_least_zero, at_most, CursorPos, ScreenState};
use crate::spell::{actionable, is_actionable_category, issues_view, IssueCategory, IssueView};
use crate::spell::SpellIssue;
use crate::text::{chars_of, digits, is_line, last_line_start, push_digits};
use std::collections::hash_map::DefaultHasher;
use std::hash::Hasher;
use vstd::prelude::*;
use vstd::std_specs::hash::DefaultHasherAdditionalSpecFns;
use vstd::utf8::encode_utf8;

verus! {

/// How long to wait after the last keystroke before painting, in
/// milliseconds, where nothing else is configured.
pub const PAUSE_MS: u64 = DEFAULT_PAUSE_MS;

/// The underline forms: `Plain` is the only one that every terminal draws
/// alike; `Fancy` is curly and red.
#[derive(Debug, Clone, Copy, PartialEq, Eq, Structural)]
pub enum UnderlineStyle {
    Plain,
    Fancy,
}

pub const PLAIN: UnderlineStyle = UnderlineStyle::Plain;

pub const FANCY: UnderlineStyle = UnderlineStyle::Fancy;

impl UnderlineStyle {
    /// What is written before a word.
    pub open spec fn opening(self) -> Seq<char> {
        match self {
            UnderlineStyle::Plain => "\x1b[4m"@,
            UnderlineStyle::Fancy => "\x1b[4:3m\x1b[58:2::255:0:0m"@,
        }
    }

    /// What is written after a word.
    pub open spec fn closing(self) -> Seq<char> {
        match self {
            UnderlineStyle::Plain => "\x1b[24m"@,
            UnderlineStyle::Fancy => "\x1b[59m\x1b[24m"@,
        }
    }

    pub fn open(self) -> (r: &'static str)
        ensures
            r@ == self.opening(),
    {
        match self {
            UnderlineStyle::Plain => "\x1b[4m",
            UnderlineStyle::Fancy => "\x1b[4:3m\x1b[58:2::255:0:0m",
        }
    }

    pub fn close(self) -> (r: &'static str)
        ensures
            r@ == self.closing(),
    {
        match self {
            UnderlineStyle::Plain => "\x1b[24m",
            UnderlineStyle::Fancy => "\x1b[59m\x1b[24m",
        }
    }
}

/// Cells that carry an underline of the last paint.
#[derive(Debug, Clone, Copy, PartialEq, Eq, Structural)]
pub struct PaintedSpan {
    pub row: u16,
    pub col_start: u16,
    pub col_end: u16,
}

/// What a `PaintGate` holds.
#[verifier::ext_equal]
pub struct GateModel {
    pub dirty: bool,
    pub last_keystroke_at: Option<Instant>,
    pub last_paint_signature: u64,
    pub painted: Seq<PaintedSpan>,
    pub pause: Duration,
}

impl GateModel {
    pub open spec fn init(pause: Duration) -> GateModel {
        GateModel {
            dirty: true,
            last_keystroke_at: None,
            last_paint_signature: 0,
            painted: Seq::empty(),
            pause,
        }
    }

    /// Whether the pause after the last keystroke is over.
    pub open spec fn paused(self, now: Instant) -> bool {
        match self.last_keystroke_at {
            Some(t) => now.nanos - t.nanos >= self.pause.nanos || self.pause.nanos == 0,
            None => true,
        }
    }
}

/// Tracks whether there is something to paint, when the user last touched the
/// keyboard, and which cells carry an underline.
pub struct PaintGate {
    dirty: bool,
    last_keystroke_at: Option<Instant>,
    last_paint_signature: u64,
    painted: Vec<PaintedSpan>,
    pause: Duration,
}

impl View for PaintGate {
    type V = GateModel;

    closed spec fn view(&self) -> GateModel {
        GateModel {
            dirty: self.dirty,
            last_keystroke_at: self.last_keystroke_at,
            last_paint_signature: self.last_paint_signature,
            painted: self.painted@,
            pause: self.pause,
        }
    }
}

impl PaintGate {
    /// A gate with the default pause.
    pub fn new() -> (r: Self)
        ensures
            r@ == GateModel::init(Duration { nanos: 150_000_000 }),
    {
        PaintGate::with_pause(Duration::from_millis(PAUSE_MS))
    }

    pub fn with_pause(pause: Duration) -> (r: Self)
        ensures
            r@ == GateModel::init(pause),
    {
        PaintGate {
            dirty: true,
            last_keystroke_at: None,
            last_paint_signature: 0,
            painted: Vec::new(),
            pause,
        }
    }

    pub fn mark_keystroke(&mut self, now: Instant)
        ensures
            final(self)@ == (GateModel {
                last_keystroke_at: Some(now),
                dirty: true,
                ..old(self)@
            }),
    {
        self.last_keystroke_at = Some(now);
        self.dirty = true;
    }

    pub fn mark_dirty(&mut self)
        ensures
            final(self)@ == (GateModel { dirty: true, ..old(self)@ }),
    {
        self.dirty = true;
    }

    /// Whether the pause after the last keystroke is over.
    pub fn pause_elapsed(&self, now: Instant) -> (r: bool)
        ensures
            r == self@.paused(now),
    {
        match self.last_keystroke_at {
            Some(t) => now.duration_since(t).nanos >= self.pause.nanos,
            None => true,
        }
    }

    /// Whether something changed and the pause is over.
    pub fn should_paint(&self, now: Instant) -> (r: bool)
        ensures
            r == (self@.dirty && self@.paused(now)),
    {
        if !self.dirty {
            return false;
        }
        self.pause_elapsed(now)
    }

    pub fn record_paint(&mut self, signature: u64)
        ensures
            final(self)@ == (GateModel {
                last_paint_signature: signature,
                dirty: false,
                ..old(self)@
            }),
    {
        self.last_paint_signature = signature;
        self.dirty = false;
    }

    /// Forgets what carries an underline, where the host has rewritten or is
    /// about to rewrite those cells.
    pub fn forget_painted(&mut self)
        ensures
            final(self)@ == (GateModel { painted: Seq::empty(), ..old(self)@ }),
    {
        self.painted.clear();
    }

    pub fn painted_len(&self) -> (r: usize)
        ensures
            r == self@.painted.len(),
    {
        self.painted.len()
    }
}

impl Default for PaintGate {
    fn default() -> (r: Self)
        ensures
            r@ == GateModel::init(Duration { nanos: 150_000_000 }),
    {
        PaintGate::new()
    }
}

/// Whether painting is on. Inline programs count as much as those on the
/// alternate screen.
pub fn paint_active(settings: &Settings) -> (r: bool)
    ensures
        r == settings.paint,
{
    settings.paint
}

/// The lines of a text as ranges, without the line feeds.
pub open spec fn line_spans(text: Seq<char>) -> Seq<(int, int)>
    decreases text.len(),
{
    if text.len() == 0 {
        seq![(0int, 0int)]
    } else {
        let before = line_spans(text.drop_last());
        let n = text.len() as int;
        if text.last() == '\n' {
            before.push((n, n))
        } else {
            before.drop_last().push((before.last().0, n))
        }
    }
}

/// The first line that a range lies in, or -1.
pub open spec fn line_of(lines: Seq<(int, int)>, start: int, end: int) -> int
    decreases lines.len(),
{
    if lines.len() == 0 {
        -1
    } else {
        let before = line_of(lines.drop_last(), start, end);
        if before >= 0 {
            before
        } else if lines.last().0 <= start && end <= lines.last().1 {
            lines.len() - 1
        } else {
            -1
        }
    }
}

/// The last line that is not empty, or -1.
pub open spec fn last_filled(lines: Seq<(int, int)>) -> int
    decreases lines.len(),
{
    if lines.len() == 0 {
        -1
    } else if lines.last().0 < lines.last().1 {
        lines.len() - 1
    } else {
        last_filled(lines.drop_last())
    }
}

/// The cells of a text that the screen shows from `at` on.
pub open spec fn char_cells(
    grid: Map<u32, Cell>,
    cols: int,
    text: Seq<char>,
    at: CursorPos,
) -> Option<Seq<CursorPos>> {
    let row = at.row as int;
    let col = at.col as int;
    if text.len() == 0 {
        Some(Seq::empty())
    } else if walked(grid, cols, text, row, col, text.len() as int) is None {
        None
    } else {
        Some(
            Seq::new(
                text.len(),
                |k: int| last_cell(walked(grid, cols, text, row, col, k + 1)->0),
            ),
        )
    }
}

/// The cell that was found last.
pub open spec fn last_cell(w: Walk) -> CursorPos {
    CursorPos { row: w.row as u16, col: (w.col - 1) as u16 }
}

/// The cells of a line of the buffer, where the screen shows it.
pub open spec fn line_cells(m: EchoModel, cols: int, line: (int, int)) -> Option<Seq<CursorPos>> {
    let text = m.buffer_text.subrange(line.0, line.1);
    match latest_shown(m.grid, text, cols) {
        Some(at) => char_cells(m.grid, cols, text, at),
        None => None,
    }
}

/// Whether two characters look alike to the painter: as for the search, and
/// without regard to the case of letters, which some hosts change.
pub open spec fn looks_like(a: char, b: char) -> bool {
    same_glyph(a, b) || lowercase(seq![a]) == lowercase(seq![b])
}

/// A word to underline.
#[verifier::ext_equal]
pub struct SpanView {
    pub row: int,
    pub col_start: int,
    pub col_end: int,
    pub word: Seq<char>,
}

/// Whether an issue is one that the painter considers.
pub open spec fn paintable(issue: IssueView, grammar: bool) -> bool {
    actionable(issue.category, grammar) && issue.suggestions.len() > 0
}

/// Where an issue is underlined: on the row that shows all of its word, unless
/// the word is still being typed or the screen shows something else there.
pub open spec fn span_of(m: EchoModel, screen: ScreenState, issue: IssueView) -> Option<SpanView> {
    let lines = line_spans(m.buffer_text);
    let anchor = last_filled(lines);
    let i = line_of(lines, issue.char_start, issue.char_end);
    if i < 0 || i > anchor || (i == anchor && issue.char_end == m.buffer_chars) {
        None
    } else {
        match line_cells(m, screen.cols as int, lines[i]) {
            Some(cells) => span_in(
                m,
                screen,
                cells,
                issue.char_start - lines[i].0,
                issue.char_end - lines[i].0,
                issue.word,
            ),
            None => None,
        }
    }
}

/// Where the characters `start..end` of a line are underlined, given the cells
/// of that line.
pub open spec fn span_in(
    m: EchoModel,
    screen: ScreenState,
    cells: Seq<CursorPos>,
    start: int,
    end: int,
    word: Seq<char>,
) -> Option<SpanView> {
    if end <= 0 || start >= cells.len() || end > cells.len() {
        None
    } else {
        let first = cells[start];
        let last = cells[end - 1];
        if first.row != last.row || first.row >= screen.rows || last.col + 1 > screen.cols {
            None
        } else if word.len() > 0 && !(glyph(m.grid, first.row as int, first.col as int) matches Some(
            c,
        ) && looks_like(c, word[0])) {
            None
        } else {
            Some(
                SpanView {
                    row: first.row as int,
                    col_start: first.col as int,
                    col_end: last.col + 1,
                    word,
                },
            )
        }
    }
}

/// Whether an earlier issue that the painter considers has the same range.
pub open spec fn is_repeated(lints: Seq<IssueView>, i: int, grammar: bool) -> bool {
    exists|j: int|
        0 <= j < i && paintable(#[trigger] lints[j], grammar) && lints[j].char_start
            == lints[i].char_start && lints[j].char_end == lints[i].char_end
}

/// The words to underline for the first `k` issues.
pub open spec fn spans_of(m: EchoModel, screen: ScreenState, grammar: bool, k: int) -> Seq<SpanView>
    decreases k,
{
    if k <= 0 {
        Seq::empty()
    } else {
        let before = spans_of(m, screen, grammar, k - 1);
        let issue = m.lints[k - 1];
        if !paintable(issue, grammar) || is_repeated(m.lints, k - 1, grammar) {
            before
        } else {
            match span_of(m, screen, issue) {
                Some(span) => before.push(span),
                None => before,
            }
        }
    }
}

/// All words to underline. None where the screen does not show the buffer.
pub open spec fn new_spans(m: EchoModel, screen: ScreenState, grammar: bool) -> Seq<SpanView> {
    match m.anchor(screen.cols) {
        Some(anchor) => if m.lints.len() == 0 || m.buffer_chars == 0 || anchor.row >= screen.rows {
            Seq::empty()
        } else {
            spans_of(m, screen, grammar, m.lints.len() as int)
        },
        None => Seq::empty(),
    }
}

/// The lines of a text.
fn lines_of(chars: &[char]) -> (r: Vec<(usize, usize)>)
    ensures
        r@.len() == line_spans(chars@).len(),
        r@.len() > 0,
        forall|i: int|
            0 <= i < r@.len() ==> (#[trigger] r@[i]).0 as int == line_spans(chars@)[i].0
                && r@[i].1 as int == line_spans(chars@)[i].1 && r@[i].0 <= r@[i].1 <= chars@.len(),
{
    let mut lines: Vec<(usize, usize)> = Vec::new();
    let mut start: usize = 0;
    let mut i: usize = 0;
    while i < chars.len()
        invariant
            start <= i <= chars@.len(),
            line_spans(chars@.take(i as int)).len() == lines@.len() + 1,
            line_spans(chars@.take(i as int)).last() == (start as int, i as int),
            forall|j: int|
                0 <= j < lines@.len() ==> (#[trigger] lines@[j]).0 as int == line_spans(
                    chars@.take(i as int),
                )[j].0 && lines@[j].1 as int == line_spans(chars@.take(i as int))[j].1
                    && lines@[j].0 <= lines@[j].1 <= chars@.len(),
        decreases chars@.len() - i,
    {
        proof {
            assert(chars@.take(i + 1).drop_last() =~= chars@.take(i as int));
            assert(chars@.take(i + 1).last() == chars@[i as int]);
        }
        if chars[i] == '\n' {
            lines.push((start, i));
            start = i + 1;
        }
        i += 1;
    }
    lines.push((start, i));
    proof {
        assert(chars@.take(i as int) =~= chars@);
    }
    lines
}

/// The first of the lines that a range lies in.
fn find_line(lines: &Vec<(usize, usize)>, start: usize, end: usize, Ghost(all): Ghost<
    Seq<(int, int)>,
>) -> (r: Option<usize>)
    requires
        lines@.len() == all.len(),
        forall|i: int|
            0 <= i < all.len() ==> (#[trigger] lines@[i]).0 as int == all[i].0 && lines@[i].1 as int
                == all[i].1,
    ensures
        line_of(all, start as int, end as int) == match r {
            Some(i) => i as int,
            None => -1,
        },
        r matches Some(i) ==> i < lines@.len() && lines@[i as int].0 <= start,
{
    let mut i: usize = 0;
    while i < lines.len()
        invariant
            lines@.len() == all.len(),
            forall|j: int|
                0 <= j < all.len() ==> (#[trigger] lines@[j]).0 as int == all[j].0
                    && lines@[j].1 as int == all[j].1,
            i <= lines@.len(),
            line_of(all.take(i as int), start as int, end as int) == -1,
        decreases lines@.len() - i,
    {
        proof {
            assert(all.take(i + 1).drop_last() =~= all.take(i as int));
            assert(lines@[i as int].0 as int == all[i as int].0);
        }
        if lines[i].0 <= start && end <= lines[i].1 {
            proof {
                line_of_prefix(all, i + 1, start as int, end as int);
            }
            return Some(i);
        }
        i += 1;
    }
    proof {
        assert(all.take(i as int) =~= all);
    }
    None
}

/// A line that is found among the first lines is found among all.
proof fn line_of_prefix(lines: Seq<(int, int)>, k: int, start: int, end: int)
    requires
        0 <= k <= lines.len(),
        line_of(lines.take(k), start, end) >= 0,
    ensures
        line_of(lines, start, end) == line_of(lines.take(k), start, end),
    decreases lines.len() - k,
{
    if k == lines.len() {
        assert(lines.take(k) =~= lines);
    } else {
        assert(lines.take(k + 1).drop_last() =~= lines.take(k));
        line_of_prefix(lines, k + 1, start, end);
    }
}

/// The last of the lines that is not empty.
fn find_last_filled(lines: &Vec<(usize, usize)>, Ghost(all): Ghost<Seq<(int, int)>>) -> (r: Option<
    usize,
>)
    requires
        lines@.len() == all.len(),
        forall|i: int|
            0 <= i < all.len() ==> (#[trigger] lines@[i]).0 as int == all[i].0 && lines@[i].1 as int
                == all[i].1,
    ensures
        last_filled(all) == match r {
            Some(i) => i as int,
            None => -1,
        },
        r matches Some(i) ==> i < lines@.len() && lines@[i as int].0 < lines@[i as int].1,
{
    let mut i: usize = lines.len();
    proof {
        assert(all.take(i as int) =~= all);
    }
    while i > 0
        invariant
            lines@.len() == all.len(),
            forall|j: int|
                0 <= j < all.len() ==> (#[trigger] lines@[j]).0 as int == all[j].0
                    && lines@[j].1 as int == all[j].1,
            i <= lines@.len(),
            last_filled(all) == last_filled(all.take(i as int)),
        decreases i,
    {
        proof {
            assert(all.take(i as int).drop_last() =~= all.take(i - 1));
            assert(lines@[i - 1].0 as int == all[i - 1].0);
        }
        if lines[i - 1].0 < lines[i - 1].1 {
            return Some(i - 1);
        }
        i -= 1;
    }
    None
}

/// Follows a text from a cell and records where each character stands. None
/// where the screen does not show the text there.
pub fn build_char_positions(
    chars: &[char],
    anchor: CursorPos,
    cols: u16,
    matcher: &EchoMatcher,
) -> (r: Option<Vec<CursorPos>>)
    ensures
        match r {
            Some(cells) => char_cells(matcher@.grid, cols as int, chars@, anchor) == Some(cells@),
            None => char_cells(matcher@.grid, cols as int, chars@, anchor) is None,
        },
{
    let ghost g = matcher@.grid;
    let ghost arow = anchor.row as int;
    let ghost acol = anchor.col as int;
    let mut cells: Vec<CursorPos> = Vec::new();
    if chars.len() == 0 {
        proof {
            assert(cells@ =~= Seq::<CursorPos>::empty());
        }
        return Some(cells);
    }
    let base_col: u16 = anchor.col;
    cells.push(anchor);
    let mut row: u16 = anchor.row;
    let mut col: u32 = base_col as u32 + 1;
    let mut row_start: u16 = base_col;
    let mut k: usize = 1;
    while k < chars.len()
        invariant
            g == matcher@.grid,
            arow == anchor.row,
            acol == anchor.col,
            base_col == anchor.col,
            1 <= k <= chars@.len(),
            col <= 0x10000,
            cells@.len() == k,
            walked(g, cols as int, chars@, arow, acol, k as int) matches Some(w) && w.row == row
                && w.col == col && w.row_start == row_start,
            forall|j: int|
                0 <= j < k ==> #[trigger] cells@[j] == last_cell(
                    walked(g, cols as int, chars@, arow, acol, j + 1)->0,
                ),
        decreases chars@.len() - k,
    {
        let ch = chars[k];
        proof {
            let w = walked(g, cols as int, chars@, arow, acol, k as int)->0;
            assert(walked(g, cols as int, chars@, arow, acol, k + 1) == walked_on(
                g,
                cols as int,
                acol,
                w,
                ch,
            ));
            if walked_on(g, cols as int, acol, w, ch) is None {
                crate::grid::walked_none(
                    g,
                    cols as int,
                    chars@,
                    arow,
                    acol,
                    k + 1,
                    chars@.len() as int,
                );
            }
        }
        let wrapped = col >= cols as u32;
        if wrapped {
            if row == 0xFFFF {
                return None;
            }
            row = row + 1;
            col = row_start as u32;
        }
        let c: u16 = col as u16;
        if matcher.fits_cell(row, c, ch) {
            col = col + 1;
        } else if wrapped && row_start > 0 && matcher.fits_cell(row, 0, ch) {
            row_start = 0;
            col = 1;
        } else {
            if matcher.cell_at(row, c).is_some() || row == 0xFFFF {
                return None;
            }
            row = row + 1;
            if matcher.fits_cell(row, base_col, ch) {
                row_start = base_col;
                col = base_col as u32 + 1;
            } else if base_col > 0 && matcher.fits_cell(row, 0, ch) {
                row_start = 0;
                col = 1;
            } else {
                return None;
            }
        }
        cells.push(CursorPos { row, col: (col - 1) as u16 });
        k += 1;
    }
    proof {
        assert(cells@ =~= char_cells(g, cols as int, chars@, anchor)->0);
    }
    Some(cells)
}

/// A pending underline: where, and over which characters.
pub struct NewSpan {
    pub row: u16,
    pub col_start: u16,
    pub col_end: u16,
    pub word: String,
}

impl View for NewSpan {
    type V = SpanView;

    open spec fn view(&self) -> SpanView {
        SpanView {
            row: self.row as int,
            col_start: self.col_start as int,
            col_end: self.col_end as int,
            word: self.word@,
        }
    }
}

pub open spec fn spans_view(spans: Seq<NewSpan>) -> Seq<SpanView> {
    spans.map_values(|s: NewSpan| s@)
}

/// Comparison of a cell with the first character of a word. Space and
/// no-break space are alike, and so are the cases of a letter.
pub fn chars_equiv(grid_ch: char, target_ch: char) -> (r: bool)
    ensures
        r == looks_like(grid_ch, target_ch),
{
    if crate::grid::chars_equiv(grid_ch, target_ch) {
        return true;
    }
    let mut a = String::new();
    a.push(grid_ch);
    let mut b = String::new();
    b.push(target_ch);
    proof {
        assert(a@ =~= seq![grid_ch]);
        assert(b@ =~= seq![target_ch]);
    }
    a.as_str().to_lowercase() == b.as_str().to_lowercase()
}

fn is_candidate(issue: &SpellIssue, grammar_enabled: bool) -> (r: bool)
    ensures
        r == paintable(issue@, grammar_enabled),
{
    is_actionable_category(issue.category, grammar_enabled) && issue.suggestions.len() > 0
}

fn seen_before(lints: &[SpellIssue], i: usize, grammar_enabled: bool) -> (r: bool)
    requires
        i < lints@.len(),
    ensures
        r == is_repeated(issues_view(lints@), i as int, grammar_enabled),
{
    let ghost all = issues_view(lints@);
    let mut j: usize = 0;
    while j < i
        invariant
            i < lints@.len(),
            all == issues_view(lints@),
            j <= i,
            forall|k: int|
                0 <= k < j ==> !(paintable(#[trigger] all[k], grammar_enabled) && all[k].char_start
                    == all[i as int].char_start && all[k].char_end == all[i as int].char_end),
        decreases i - j,
    {
        assert(lints@[j as int]@ == all[j as int]);
        assert(lints@[i as int]@ == all[i as int]);
        if is_candidate(&lints[j], grammar_enabled) && lints[j].char_start == lints[i].char_start
            && lints[j].char_end == lints[i].char_end {
            return true;
        }
        j += 1;
    }
    false
}

/// Where the characters `start..end` of a line are underlined.
fn span_on_line(
    matcher: &EchoMatcher,
    screen: &ScreenState,
    cells: &Vec<CursorPos>,
    start: usize,
    end: usize,
    word: &String,
) -> (r: Option<NewSpan>)
    ensures
        span_in(matcher@, *screen, cells@, start as int, end as int, word@) == match r {
            Some(span) => Some(span@),
            None => None,
        },
{
    if end == 0 || start >= cells.len() || end > cells.len() {
        return None;
    }
    let first = cells[start];
    let last = cells[end - 1];
    if first.row != last.row || first.row >= screen.rows || last.col >= screen.cols {
        return None;
    }
    let chars = chars_of(word.as_str());
    if chars.len() > 0 {
        match matcher.cell_at(first.row, first.col) {
            Some(c) => if !chars_equiv(c, chars[0]) {
                return None;
            },
            None => return None,
        }
    }
    Some(
        NewSpan {
            row: first.row,
            col_start: first.col,
            col_end: last.col + 1,
            word: word.clone(),
        },
    )
}

/// The last line that is not empty is the anchor line.
proof fn last_filled_is_anchor(text: Seq<char>)
    ensures
        line_spans(text).len() > 0,
        line_spans(text).last() == (last_line_start(text), text.len() as int),
        last_filled(line_spans(text)) >= 0 ==> line_spans(text)[last_filled(line_spans(text))] == (
            anchor_start(text),
            content_end(text),
        ),
        last_filled(line_spans(text)) < line_spans(text).len(),
        last_filled(line_spans(text)) < 0 ==> content_end(text) == 0,
    decreases text.len(),
{
    if text.len() > 0 {
        let init = text.drop_last();
        last_filled_is_anchor(init);
        crate::echo::anchor_line_props(init);
        let lines = line_spans(text);
        if text.last() == '\n' {
            assert(lines.drop_last() =~= line_spans(init));
            assert(text.take(content_end(text)) =~= init.take(content_end(init)));
        } else {
            assert(text.take(text.len() as int) =~= text);
            crate::text::last_line_start_props(init);
        }
    } else {
        assert(line_spans(text).drop_last() =~= Seq::<(int, int)>::empty());
        assert(last_filled(line_spans(text).drop_last()) == -1);
        assert(text.take(0) =~= text);
    }
}

/// The words to underline now: those of the issues that pass every filter, at
/// the cells where the screen shows them.
pub fn compute_new_spans(matcher: &EchoMatcher, screen: &ScreenState, grammar_enabled: bool) -> (r:
    Vec<NewSpan>)
    ensures
        spans_view(r@) == new_spans(matcher@, *screen, grammar_enabled),
{
    let ghost m = matcher@;
    let ghost cols = screen.cols as int;
    let lints = matcher.lints();
    let buffer_chars: usize = matcher.buffer_chars();
    let mut spans: Vec<NewSpan> = Vec::new();
    proof {
        assert(spans_view(spans@) =~= Seq::<SpanView>::empty());
        assert(m.lints.len() == lints@.len());
    }
    if lints.len() == 0 || buffer_chars == 0 {
        return spans;
    }
    let anchor = match matcher.find_input_anchor(screen.cols) {
        Some(anchor) => anchor,
        None => return spans,
    };
    if anchor.row >= screen.rows {
        return spans;
    }
    let text = chars_of(matcher.buffer_text());
    let lines = lines_of(text.as_slice());
    let ghost all = line_spans(m.buffer_text);
    let anchor_idx: usize = match find_last_filled(&lines, Ghost(all)) {
        Some(i) => i,
        None => {
            proof {
                last_filled_is_anchor(m.buffer_text);
                crate::echo::anchor_line_props(m.buffer_text);
                assert(anchor_line(m.buffer_text).len() == 0);
            }
            return spans;
        },
    };
    proof {
        last_filled_is_anchor(m.buffer_text);
    }
    // The cells of every line up to the anchor line. Earlier lines, of a
    // pasted text, are looked for each on its own.
    let count: usize = lines.len();
    let mut line_positions: Vec<Option<Vec<CursorPos>>> = Vec::new();
    let mut i: usize = 0;
    while i <= anchor_idx
        invariant
            count == lines@.len(),
            m == matcher@,
            cols == screen.cols as int,
            text@ == m.buffer_text,
            all == line_spans(m.buffer_text),
            lines@.len() == all.len(),
            anchor_idx < lines@.len(),
            m.anchor(screen.cols) == Some(anchor),
            all[anchor_idx as int] == (anchor_start(m.buffer_text), content_end(m.buffer_text)),
            forall|j: int|
                0 <= j < lines@.len() ==> (#[trigger] lines@[j]).0 as int == all[j].0
                    && lines@[j].1 as int == all[j].1 && lines@[j].0 <= lines@[j].1 <= text@.len(),
            i <= anchor_idx + 1,
            line_positions@.len() == i,
            forall|j: int|
                0 <= j < i ==> cells_view(#[trigger] line_positions@[j]) == line_cells(
                    m,
                    cols,
                    all[j],
                ),
        decreases anchor_idx + 1 - i,
    {
        let line = vstd::slice::slice_subrange(text.as_slice(), lines[i].0, lines[i].1);
        proof {
            assert(lines@[i as int].0 as int == all[i as int].0);
            assert(line@ == m.buffer_text.subrange(all[i as int].0, all[i as int].1));
        }
        let at = if i == anchor_idx {
            Some(anchor)
        } else {
            matcher.find_chars_anchor(line, screen.cols)
        };
        let cells = match at {
            Some(p) => build_char_positions(line, p, screen.cols, matcher),
            None => None,
        };
        line_positions.push(cells);
        i += 1;
    }
    let mut k: usize = 0;
    while k < lints.len()
        invariant
            m == matcher@,
            m.lints == issues_view(lints@),
            m.buffer_chars == buffer_chars,
            cols == screen.cols as int,
            text@ == m.buffer_text,
            all == line_spans(m.buffer_text),
            lines@.len() == all.len(),
            anchor_idx < lines@.len(),
            anchor_idx == last_filled(all),
            forall|j: int|
                0 <= j < lines@.len() ==> (#[trigger] lines@[j]).0 as int == all[j].0
                    && lines@[j].1 as int == all[j].1 && lines@[j].0 <= lines@[j].1 <= text@.len(),
            line_positions@.len() == anchor_idx + 1,
            forall|j: int|
                0 <= j <= anchor_idx ==> cells_view(#[trigger] line_positions@[j]) == line_cells(
                    m,
                    cols,
                    all[j],
                ),
            k <= lints@.len(),
            spans_view(spans@) == spans_of(m, *screen, grammar_enabled, k as int),
        decreases lints@.len() - k,
    {
        let issue = &lints[k];
        let ghost before = spans@;
        assert(issue@ == m.lints[k as int]);
        if is_candidate(issue, grammar_enabled) && !seen_before(lints, k, grammar_enabled) {
            if let Some(li) = find_line(&lines, issue.char_start, issue.char_end, Ghost(all)) {
                if li <= anchor_idx && !(li == anchor_idx && issue.char_end == buffer_chars) {
                    let ghost cells_of_line = cells_view(line_positions@[li as int]);
                    let line_start: usize = lines[li].0;
                    if let Some(cells) = &line_positions[li] {
                        if issue.char_end > line_start {
                            if let Some(span) = span_on_line(
                                matcher,
                                screen,
                                cells,
                                issue.char_start - line_start,
                                issue.char_end - line_start,
                                &issue.word,
                            ) {
                                proof {
                                    assert(span_of(m, *screen, issue@) == Some(span@));
                                }
                                spans.push(span);
                                proof {
                                    assert(spans_view(spans@) =~= spans_view(before).push(span@));
                                }
                            }
                        }
                    }
                }
            }
        }
        k += 1;
    }
    spans
}

pub open spec fn cells_view(cells: Option<Vec<CursorPos>>) -> Option<Seq<CursorPos>> {
    match cells {
        Some(v) => Some(v@),
        None => None,
    }
}

/// First column from `col` on whose cell is not known (`known`) or is known,
/// or `to`.
pub open spec fn stretch_end(
    grid: Map<u32, Cell>,
    row: int,
    col: int,
    to: int,
    known: bool,
) -> int
    decreases to - col,
{
    if col < to && (glyph(grid, row, col) is Some) == known {
        stretch_end(grid, row, col + 1, to, known)
    } else {
        col
    }
}

/// The characters of known cells.
pub open spec fn row_text(grid: Map<u32, Cell>, row: int, from: int, to: int) -> Seq<char> {
    Seq::new((to - from) as nat, |i: int| glyph(grid, row, from + i)->0)
}

/// The strokes that take the underline off the known cells `col..to` of a row,
/// one for each stretch of them.
pub open spec fn clear_strokes(grid: Map<u32, Cell>, row: int, col: int, to: int) -> Seq<Stroke>
    decreases to - col,
{
    let end = stretch_end(grid, row, col, to, true);
    let next = stretch_end(grid, row, end, to, false);
    if col >= to || next <= col || next > to {
        Seq::empty()
    } else if end > col {
        seq![
            Stroke {
                row,
                col,
                open: PLAIN.closing(),
                text: row_text(grid, row, col, end),
                close: Seq::empty(),
                end_col: end,
            },
        ] + clear_strokes(grid, row, next, to)
    } else {
        clear_strokes(grid, row, next, to)
    }
}

/// The strokes that take the underline off all spans of a list.
pub open spec fn all_clear_strokes(grid: Map<u32, Cell>, stale: Seq<PaintedSpan>) -> Seq<Stroke>
    decreases stale.len(),
{
    if stale.len() == 0 {
        Seq::empty()
    } else {
        all_clear_strokes(grid, stale.drop_last()) + clear_strokes(
            grid,
            stale.last().row as int,
            stale.last().col_start as int,
            stale.last().col_end as int,
        )
    }
}

/// Whether the grid knows all cells of a span.
pub open spec fn all_known(grid: Map<u32, Cell>, span: PaintedSpan) -> bool {
    forall|c: int|
        span.col_start <= c < span.col_end ==> (#[trigger] glyph(grid, span.row as int, c)) is Some
}

/// The spans of a list that have to be tried again.
pub open spec fn unfinished(grid: Map<u32, Cell>, stale: Seq<PaintedSpan>) -> Seq<PaintedSpan>
    decreases stale.len(),
{
    if stale.len() == 0 {
        Seq::empty()
    } else {
        let before = unfinished(grid, stale.drop_last());
        if all_known(grid, stale.last()) {
            before
        } else {
            before.push(stale.last())
        }
    }
}

pub open spec fn key(span: SpanView) -> PaintedSpan {
    PaintedSpan {
        row: span.row as u16,
        col_start: span.col_start as u16,
        col_end: span.col_end as u16,
    }
}

pub open spec fn keys(spans: Seq<SpanView>) -> Seq<PaintedSpan> {
    spans.map_values(|s: SpanView| key(s))
}

/// The painted spans that are no longer wanted.
pub open spec fn stale_spans(painted: Seq<PaintedSpan>, wanted: Seq<PaintedSpan>) -> Seq<
    PaintedSpan,
>
    decreases painted.len(),
{
    if painted.len() == 0 {
        Seq::empty()
    } else {
        let before = stale_spans(painted.drop_last(), wanted);
        if wanted.contains(painted.last()) {
            before
        } else {
            before.push(painted.last())
        }
    }
}

/// The stroke that underlines a word.
pub open spec fn underline_stroke(span: SpanView, style: UnderlineStyle) -> Stroke {
    Stroke {
        row: span.row,
        col: span.col_start,
        open: style.opening(),
        text: span.word,
        close: style.closing(),
        end_col: span.col_end,
    }
}

pub open spec fn underline_strokes(spans: Seq<SpanView>, style: UnderlineStyle) -> Seq<Stroke> {
    spans.map_values(|s: SpanView| underline_stroke(s, style))
}

/// Where the child's cursor is, kept on the screen.
pub open spec fn home(screen: ScreenState) -> Pos {
    Pos {
        row: at_most(screen.cursor.row as int, at_least_zero(screen.rows - 1)),
        col: at_most(screen.cursor.col as int, at_least_zero(screen.cols - 1)),
    }
}

/// All strokes of a paint: first those that clear, then those that underline.
pub open spec fn paint_strokes(
    painted: Seq<PaintedSpan>,
    m: EchoModel,
    screen: ScreenState,
    style: UnderlineStyle,
    grammar: bool,
) -> Seq<Stroke> {
    let spans = new_spans(m, screen, grammar);
    all_clear_strokes(m.grid, stale_spans(painted, keys(spans))) + underline_strokes(spans, style)
}

/// What carries an underline after a paint: the new spans, and those that
/// could not be cleared in full.
pub open spec fn painted_after(
    painted: Seq<PaintedSpan>,
    m: EchoModel,
    screen: ScreenState,
    grammar: bool,
) -> Seq<PaintedSpan> {
    let wanted = keys(new_spans(m, screen, grammar));
    wanted + unfinished(m.grid, stale_spans(painted, wanted))
}

/// The bytes of a paint.
pub open spec fn annotation_bytes(
    painted: Seq<PaintedSpan>,
    m: EchoModel,
    screen: ScreenState,
    style: UnderlineStyle,
    grammar: bool,
) -> Seq<u8> {
    tokens_bytes(
        drawn_from(
            screen.cols as int,
            home(screen),
            paint_strokes(painted, m, screen, style, grammar),
        ),
    )
}

/// The painted spans that are no longer wanted.
fn find_stale(painted: &Vec<PaintedSpan>, spans: &Vec<NewSpan>) -> (r: Vec<PaintedSpan>)
    ensures
        r@ == stale_spans(painted@, keys(spans_view(spans@))),
{
    let ghost wanted = keys(spans_view(spans@));
    let mut r: Vec<PaintedSpan> = Vec::new();
    let mut i: usize = 0;
    proof {
        assert(painted@.take(0) =~= Seq::<PaintedSpan>::empty());
    }
    while i < painted.len()
        invariant
            wanted == keys(spans_view(spans@)),
            i <= painted@.len(),
            r@ == stale_spans(painted@.take(i as int), wanted),
        decreases painted@.len() - i,
    {
        let p = painted[i];
        let mut found = false;
        let mut j: usize = 0;
        while j < spans.len() && !found
            invariant
                wanted == keys(spans_view(spans@)),
                j <= spans@.len(),
                found ==> wanted.contains(p),
                !found ==> forall|k: int| 0 <= k < j ==> wanted[k] != p,
            decreases spans@.len() - j + if found { 0int } else { 1int },
        {
            let s = &spans[j];
            assert(wanted[j as int] == key(s@));
            if s.row == p.row && s.col_start == p.col_start && s.col_end == p.col_end {
                found = true;
            } else {
                j += 1;
            }
        }
        if !found {
            r.push(p);
        }
        i += 1;
        proof {
            assert(painted@.take(i as int).drop_last() =~= painted@.take(i - 1));
        }
    }
    proof {
        assert(painted@.take(i as int) =~= painted@);
    }
    r
}

/// Takes the underline off the known cells of a span. Returns the pen, whether
/// all cells were known, and whether anything was written.
fn clear_span(
    out: &mut Vec<u8>,
    pen0: CursorPos,
    span: PaintedSpan,
    matcher: &EchoMatcher,
    cols: u16,
    Ghost(strokes): Ghost<Seq<Stroke>>,
    Ghost(home): Ghost<Pos>,
) -> (r: (CursorPos, bool, bool))
    requires
        old(out)@ == tokens_bytes(drawn(cols as int, home, strokes)),
        pos(pen0) == pen_after(cols as int, home, strokes),
    ensures
        ({
            let all = strokes + clear_strokes(
                matcher@.grid,
                span.row as int,
                span.col_start as int,
                span.col_end as int,
            );
            &&& final(out)@ == tokens_bytes(drawn(cols as int, home, all))
            &&& pos(r.0) == pen_after(cols as int, home, all)
            &&& r.1 == all_known(matcher@.grid, span)
            &&& r.2 == (all.len() > strokes.len())
        }),
{
    let ghost g = matcher@.grid;
    let ghost row = span.row as int;
    let ghost to = span.col_end as int;
    let mut pen = pen0;
    let mut all_present = true;
    let mut wrote = false;
    let mut col: u16 = span.col_start;
    let ghost mut done = strokes;
    let ghost whole = strokes + clear_strokes(g, row, span.col_start as int, to);
    while col < span.col_end
        invariant
            g == matcher@.grid,
            row == span.row,
            to == span.col_end,
            span.col_start < span.col_end ==> span.col_start <= col <= span.col_end,
            span.col_start >= span.col_end ==> col == span.col_start,
            out@ == tokens_bytes(drawn(cols as int, home, done)),
            pos(pen) == pen_after(cols as int, home, done),
            wrote == (done.len() > strokes.len()),
            done.len() >= strokes.len(),
            done + clear_strokes(g, row, col as int, to) == whole,
            all_present == forall|c: int|
                span.col_start <= c < col ==> (#[trigger] glyph(g, row, c)) is Some,
        decreases span.col_end - col,
    {
        let run_start: u16 = col;
        let ghost before_run = forall|c: int|
            span.col_start <= c < run_start ==> (#[trigger] glyph(g, row, c)) is Some;
        let mut text = String::new();
        while col < span.col_end && matcher.cell_at(span.row, col).is_some()
            invariant
                g == matcher@.grid,
                row == span.row,
                to == span.col_end,
                run_start <= col <= span.col_end,
                stretch_end(g, row, run_start as int, to, true) == stretch_end(
                    g,
                    row,
                    col as int,
                    to,
                    true,
                ),
                text@ == row_text(g, row, run_start as int, col as int),
                forall|c: int| run_start <= c < col ==> (#[trigger] glyph(g, row, c)) is Some,
            decreases span.col_end - col,
        {
            if let Some(ch) = matcher.cell_at(span.row, col) {
                text.push(ch);
            }
            col += 1;
            proof {
                assert(text@ =~= row_text(g, row, run_start as int, col as int));
            }
        }
        let end: u16 = col;
        if end > run_start {
            let at = CursorPos { row: span.row, col: run_start };
            crate::ansi::draw(
                out,
                cols,
                pen,
                at,
                PLAIN.close(),
                text.as_str(),
                "",
                Ghost(done),
                Ghost(home),
                Ghost(end as int),
            );
            pen = crate::ansi::rest_at(span.row, end, cols);
            wrote = true;
            proof {
                reveal_strlit("");
                assert(""@ =~= Seq::<char>::empty());
                done = done.push(
                    Stroke {
                        row,
                        col: run_start as int,
                        open: PLAIN.closing(),
                        text: text@,
                        close: Seq::empty(),
                        end_col: end as int,
                    },
                );
            }
        }
        let ghost before_gap = all_present;
        while col < span.col_end && matcher.cell_at(span.row, col).is_none()
            invariant
                g == matcher@.grid,
                row == span.row,
                to == span.col_end,
                end <= col <= span.col_end,
                stretch_end(g, row, end as int, to, false) == stretch_end(
                    g,
                    row,
                    col as int,
                    to,
                    false,
                ),
                forall|c: int| end <= c < col ==> (#[trigger] glyph(g, row, c)) is None,
                all_present == (before_gap && col == end),
            decreases span.col_end - col,
        {
            col += 1;
            all_present = false;
        }
        proof {
            assert(clear_strokes(g, row, run_start as int, to) =~= if end > run_start {
                seq![done.last()] + clear_strokes(g, row, col as int, to)
            } else {
                clear_strokes(g, row, col as int, to)
            });
            assert(done + clear_strokes(g, row, col as int, to) =~= whole);
            if col > end {
                assert(glyph(g, row, end as int) is None);
            } else if before_gap {
                assert forall|c: int| span.col_start <= c < col implies (
                #[trigger] glyph(g, row, c)) is Some by {
                    if c < run_start {
                        assert(before_run);
                    }
                }
            }
        }
    }
    proof {
        assert(done + clear_strokes(g, row, col as int, to) =~= done);
    }
    (pen, all_present, wrote)
}

/// Takes the underline off stale spans, underlines the new ones, brings the
/// cursor back and remembers what carries an underline now.
fn build_annotations_inner(
    gate: &mut PaintGate,
    matcher: &EchoMatcher,
    screen: &ScreenState,
    style: UnderlineStyle,
    grammar_enabled: bool,
) -> (r: Vec<u8>)
    ensures
        r@ == annotation_bytes(old(gate)@.painted, matcher@, *screen, style, grammar_enabled),
        final(gate)@ == (GateModel {
            painted: painted_after(old(gate)@.painted, matcher@, *screen, grammar_enabled),
            ..old(gate)@
        }),
{
    let spans = compute_new_spans(matcher, screen, grammar_enabled);
    let stale = find_stale(&gate.painted, &spans);
    let ghost m = matcher@;
    let ghost wanted = new_spans(m, *screen, grammar_enabled);
    let row_max: u16 = screen.rows.saturating_sub(1);
    let col_max: u16 = screen.cols.saturating_sub(1);
    let cur = CursorPos {
        row: if screen.cursor.row < row_max { screen.cursor.row } else { row_max },
        col: if screen.cursor.col < col_max { screen.cursor.col } else { col_max },
    };
    let ghost start = home(*screen);
    assert(pos(cur) == start);
    let mut out: Vec<u8> = Vec::new();
    let mut pen = cur;
    let mut wrote = false;
    let mut carry: Vec<PaintedSpan> = Vec::new();
    let ghost mut done = Seq::<Stroke>::empty();
    let mut i: usize = 0;
    proof {
        assert(stale@.take(0) =~= Seq::<PaintedSpan>::empty());
        assert(out@ =~= tokens_bytes(drawn(screen.cols as int, start, done)));
    }
    while i < stale.len()
        invariant
            m == matcher@,
            i <= stale@.len(),
            wrote == (done.len() > 0),
            done == all_clear_strokes(m.grid, stale@.take(i as int)),
            carry@ == unfinished(m.grid, stale@.take(i as int)),
            out@ == tokens_bytes(drawn(screen.cols as int, start, done)),
            pos(pen) == pen_after(screen.cols as int, start, done),
        decreases stale@.len() - i,
    {
        let span = stale[i];
        let (next_pen, all_present, cleared_any) = clear_span(
            &mut out,
            pen,
            span,
            matcher,
            screen.cols,
            Ghost(done),
            Ghost(start),
        );
        pen = next_pen;
        wrote = wrote || cleared_any;
        if !all_present {
            carry.push(span);
        }
        i += 1;
        proof {
            assert(stale@.take(i as int).drop_last() =~= stale@.take(i - 1));
            done = done + clear_strokes(
                m.grid,
                span.row as int,
                span.col_start as int,
                span.col_end as int,
            );
        }
    }
    proof {
        assert(stale@.take(i as int) =~= stale@);
    }
    let ghost cleared = done;
    let ghost lines = underline_strokes(wanted, style);
    let mut painted: Vec<PaintedSpan> = Vec::new();
    let mut k: usize = 0;
    proof {
        assert(cleared + lines.take(0) =~= cleared);
    }
    while k < spans.len()
        invariant
            wanted == spans_view(spans@),
            lines == underline_strokes(wanted, style),
            k <= spans@.len(),
            wrote == (done.len() > 0),
            done == cleared + lines.take(k as int),
            painted@ == keys(wanted).take(k as int),
            out@ == tokens_bytes(drawn(screen.cols as int, start, done)),
            pos(pen) == pen_after(screen.cols as int, start, done),
        decreases spans@.len() - k,
    {
        let span = &spans[k];
        let at = CursorPos { row: span.row, col: span.col_start };
        crate::ansi::draw(
            &mut out,
            screen.cols,
            pen,
            at,
            style.open(),
            span.word.as_str(),
            style.close(),
            Ghost(done),
            Ghost(start),
            Ghost(span.col_end as int),
        );
        pen = crate::ansi::rest_at(span.row, span.col_end, screen.cols);
        wrote = true;
        painted.push(
            PaintedSpan { row: span.row, col_start: span.col_start, col_end: span.col_end },
        );
        proof {
            assert(wanted[k as int] == span@);
            assert(lines[k as int] == underline_stroke(span@, style));
            done = done.push(lines[k as int]);
            assert(done =~= cleared + lines.take(k + 1));
            assert(painted@ =~= keys(wanted).take(k + 1));
        }
        k += 1;
    }
    proof {
        assert(lines.take(k as int) =~= lines);
        assert(keys(wanted).take(k as int) =~= keys(wanted));
        assert(done == paint_strokes(
            old(gate)@.painted,
            m,
            *screen,
            style,
            grammar_enabled,
        ));
    }
    finish(&mut out, screen.cols, pen, cur, wrote, Ghost(done));
    painted.append(&mut carry);
    gate.painted = painted;
    out
}

/// Builds the bytes of a paint with everything given: whether painting is on,
/// the underline and whether grammar issues are shown. With painting off
/// nothing is written and everything painted is forgotten.
pub fn build_annotations_with(
    gate: &mut PaintGate,
    matcher: &EchoMatcher,
    screen: &ScreenState,
    active: bool,
    style: UnderlineStyle,
    grammar_enabled: bool,
) -> (r: Vec<u8>)
    ensures
        r@ == if active {
            annotation_bytes(old(gate)@.painted, matcher@, *screen, style, grammar_enabled)
        } else {
            Seq::empty()
        },
        final(gate)@ == (GateModel {
            painted: if active {
                painted_after(old(gate)@.painted, matcher@, *screen, grammar_enabled)
            } else {
                Seq::empty()
            },
            ..old(gate)@
        }),
{
    if !active {
        gate.forget_painted();
        return Vec::new();
    }
    build_annotations_inner(gate, matcher, screen, style, grammar_enabled)
}

/// The bytes of a paint under given settings.
pub open spec fn paint_bytes(
    painted: Seq<PaintedSpan>,
    m: EchoModel,
    screen: ScreenState,
    settings: Settings,
) -> Seq<u8> {
    if settings.paint {
        annotation_bytes(painted, m, screen, settings.style, settings.grammar)
    } else {
        Seq::empty()
    }
}

/// The state of the painter after a paint under given settings.
pub open spec fn gate_after(
    gate: GateModel,
    m: EchoModel,
    screen: ScreenState,
    settings: Settings,
) -> GateModel {
    GateModel {
        painted: if settings.paint {
            painted_after(gate.painted, m, screen, settings.grammar)
        } else {
            Seq::empty()
        },
        ..gate
    }
}

/// Builds the bytes that underline every misspelling and clear the underlines
/// that are no longer wanted. Empty where there is nothing to do; where the
/// screen does not show the buffer, nothing is underlined.
pub fn build_annotations(
    gate: &mut PaintGate,
    matcher: &EchoMatcher,
    screen: &ScreenState,
    settings: &Settings,
) -> (r: Vec<u8>)
    ensures
        r@ == paint_bytes(old(gate)@.painted, matcher@, *screen, *settings),
        final(gate)@ == gate_after(old(gate)@, matcher@, *screen, *settings),
{
    build_annotations_with(
        gate,
        matcher,
        screen,
        paint_active(settings),
        settings.style,
        settings.grammar,
    )
}

/// What a signature says of one issue: its range, its word and where its first
/// character was echoed.
pub open spec fn issue_bytes(m: EchoModel, issue: IssueView) -> Seq<u8> {
    let offset = issue.char_start as usize;
    let at = if m.positions.contains_key(offset) {
        m.positions[offset]
    } else {
        CursorPos { row: 0xFFFF, col: 0xFFFF }
    };
    digits(issue.char_start as nat).push(0xFF) + digits(issue.char_end as nat).push(0xFF)
        + encode_utf8(issue.word).push(0xFF) + digits(at.row as nat).push(0xFF) + digits(
        at.col as nat,
    ).push(0xFF)
}

/// What a signature says of the first `k` issues.
pub open spec fn issues_bytes(m: EchoModel, k: int) -> Seq<u8>
    decreases k,
{
    if k <= 0 {
        Seq::empty()
    } else {
        issues_bytes(m, k - 1) + issue_bytes(m, m.lints[k - 1])
    }
}

/// Everything that a signature depends on: the issues and where they are, the
/// cursor, and which screen is shown.
pub open spec fn signature_bytes(m: EchoModel, screen: ScreenState) -> Seq<u8> {
    issues_bytes(m, m.lints.len() as int) + digits(screen.cursor.row as nat).push(0xFF) + digits(
        screen.cursor.col as nat,
    ).push(0xFF).push(if screen.alt_screen { 1 } else { 0 })
}

fn push_field(out: &mut Vec<u8>, n: usize)
    ensures
        final(out)@ == old(out)@ + digits(n as nat).push(0xFF),
{
    push_digits(out, n as u64);
    out.push(0xFF);
    proof {
        assert(out@ =~= old(out)@ + digits(n as nat).push(0xFF));
    }
}

/// A hash of the things that, if unchanged, make a new paint look the same.
pub fn paint_signature(matcher: &EchoMatcher, screen: &ScreenState) -> (r: u64)
    ensures
        r == DefaultHasher::spec_finish(seq![signature_bytes(matcher@, *screen)]),
{
    let ghost m = matcher@;
    let lints = matcher.lints();
    let mut bytes: Vec<u8> = Vec::new();
    let mut i: usize = 0;
    while i < lints.len()
        invariant
            m == matcher@,
            m.lints == issues_view(lints@),
            i <= lints@.len(),
            bytes@ == issues_bytes(m, i as int),
        decreases lints@.len() - i,
    {
        let issue = &lints[i];
        let ghost before = bytes@;
        assert(m.lints[i as int] == issue@);
        let at = match matcher.position_of(issue.char_start) {
            Some(p) => p,
            None => CursorPos { row: 0xFFFF, col: 0xFFFF },
        };
        push_field(&mut bytes, issue.char_start);
        push_field(&mut bytes, issue.char_end);
        crate::ansi::push_text(&mut bytes, issue.word.as_str());
        bytes.push(0xFF);
        push_field(&mut bytes, at.row as usize);
        push_field(&mut bytes, at.col as usize);
        i += 1;
        proof {
            assert(bytes@ =~= before + issue_bytes(m, issue@));
        }
    }
    push_field(&mut bytes, screen.cursor.row as usize);
    push_field(&mut bytes, screen.cursor.col as usize);
    bytes.push(if screen.alt_screen { 1 } else { 0 });
    proof {
        assert(bytes@ =~= signature_bytes(m, *screen));
    }
    let mut h = DefaultHasher::new();
    h.write(bytes.as_slice());
    proof {
        assert(h@ =~= seq![signature_bytes(m, *screen)]);
    }
    h.finish()
}

/// With painting off nothing is written and nothing painted is remembered.
pub proof fn inactive_paint_forgets(
    gate: GateModel,
    m: EchoModel,
    screen: ScreenState,
    settings: Settings,
)
    requires
        !settings.paint,
    ensures
        paint_bytes(gate.painted, m, screen, settings).len() == 0,
        gate_after(gate, m, screen, settings).painted.len() == 0,
{
}

proof fn nothing_stale(painted: Seq<PaintedSpan>, wanted: Seq<PaintedSpan>)
    requires
        forall|i: int| 0 <= i < painted.len() ==> wanted.contains(#[trigger] painted[i]),
    ensures
        stale_spans(painted, wanted).len() == 0,
    decreases painted.len(),
{
    if painted.len() > 0 {
        let rest = painted.drop_last();
        assert forall|i: int| 0 <= i < rest.len() implies wanted.contains(#[trigger] rest[i]) by {
            assert(rest[i] == painted[i]);
        }
        nothing_stale(rest, wanted);
        assert(wanted.contains(painted[painted.len() - 1]));
    }
}

/// A repaint of an unchanged state clears nothing and underlines the same
/// words again, once the clearing before it is finished.
pub proof fn repaint_is_stable(
    painted: Seq<PaintedSpan>,
    m: EchoModel,
    screen: ScreenState,
    style: UnderlineStyle,
    grammar: bool,
)
    requires
        unfinished(m.grid, stale_spans(painted, keys(new_spans(m, screen, grammar)))).len() == 0,
    ensures
        ({
            let after = painted_after(painted, m, screen, grammar);
            &&& after == keys(new_spans(m, screen, grammar))
            &&& painted_after(after, m, screen, grammar) == after
            &&& paint_strokes(after, m, screen, style, grammar) == underline_strokes(
                new_spans(m, screen, grammar),
                style,
            )
        }),
{
    let wanted = keys(new_spans(m, screen, grammar));
    let after = painted_after(painted, m, screen, grammar);
    assert(after =~= wanted);
    assert forall|i: int| 0 <= i < after.len() implies wanted.contains(#[trigger] after[i]) by {
        assert(wanted[i] == after[i]);
    }
    nothing_stale(after, wanted);
    let stale = stale_spans(after, wanted);
    assert(all_clear_strokes(m.grid, stale) =~= Seq::<Stroke>::empty());
    assert(unfinished(m.grid, stale) =~= Seq::<PaintedSpan>::empty());
    assert(painted_after(after, m, screen, grammar) =~= after);
    assert(paint_strokes(after, m, screen, style, grammar) =~= underline_strokes(
        new_spans(m, screen, grammar),
        style,
    ));
}

/// Whether a stroke rewrites a cell with a character.
pub open spec fn rewrites(s: Stroke, row: int, col: int, ch: char) -> bool {
    s.row == row && s.col <= col < s.col + s.text.len() && s.text[col - s.col] == ch
}

proof fn stretch_props(grid: Map<u32, Cell>, row: int, col: int, to: int, known: bool)
    requires
        col <= to,
    ensures
        col <= stretch_end(grid, row, col, to, known) <= to,
        forall|c: int|
            col <= c < stretch_end(grid, row, col, to, known) ==> (#[trigger] glyph(grid, row, c)
                is Some) == known,
        stretch_end(grid, row, col, to, known) < to ==> (glyph(
            grid,
            row,
            stretch_end(grid, row, col, to, known),
        ) is Some) != known,
    decreases to - col,
{
    if col < to && (glyph(grid, row, col) is Some) == known {
        stretch_props(grid, row, col + 1, to, known);
    }
}

/// Clearing a span rewrites each of its known cells with the character that
/// the screen shows there.
pub proof fn known_cells_are_cleared(grid: Map<u32, Cell>, row: int, col: int, to: int, c: int)
    requires
        col <= c < to,
        glyph(grid, row, c) is Some,
    ensures
        exists|i: int|
            0 <= i < clear_strokes(grid, row, col, to).len() && rewrites(
                #[trigger] clear_strokes(grid, row, col, to)[i],
                row,
                c,
                glyph(grid, row, c)->0,
            ),
    decreases to - col,
{
    let end = stretch_end(grid, row, col, to, true);
    stretch_props(grid, row, col, to, true);
    let next = stretch_end(grid, row, end, to, false);
    stretch_props(grid, row, end, to, false);
    let strokes = clear_strokes(grid, row, col, to);
    if c < end {
        assert(rewrites(strokes[0], row, c, glyph(grid, row, c)->0));
    } else {
        assert(c >= next);
        assert(next > col);
        known_cells_are_cleared(grid, row, next, to, c);
        let rest = clear_strokes(grid, row, next, to);
        let i = choose|i: int|
            0 <= i < rest.len() && rewrites(#[trigger] rest[i], row, c, glyph(grid, row, c)->0);
        let shift = strokes.len() - rest.len();
        assert(strokes[i + shift] == rest[i]);
    }
}

/// Rows never go back along a text, and within a row each character stands
/// right of the one before.
proof fn cells_in_order(
    grid: Map<u32, Cell>,
    cols: int,
    text: Seq<char>,
    row: int,
    col: int,
    i: int,
    j: int,
)
    requires
        0 <= row < 0x10000,
        0 <= col < 0x10000,
        0 <= cols < 0x10000,
        1 <= i <= j <= text.len(),
        walked(grid, cols, text, row, col, j) is Some,
    ensures
        walked(grid, cols, text, row, col, i) is Some,
        ({
            let a = walked(grid, cols, text, row, col, i)->0;
            let b = walked(grid, cols, text, row, col, j)->0;
            &&& 0 <= a.row <= b.row < 0x10000
            &&& 1 <= a.col <= 0x10000
            &&& 1 <= b.col <= 0x10000
            &&& 0 <= b.row_start < 0x10000
            &&& 0 <= a.row_start < 0x10000
            &&& a.row == b.row ==> b.col == a.col + (j - i)
        }),
    decreases j,
{
    if j > 1 {
        if i < j {
            cells_in_order(grid, cols, text, row, col, i, j - 1);
        } else {
            cells_in_order(grid, cols, text, row, col, j - 1, j - 1);
        }
    }
}

/// An issue whose word is the buffer text of its range.
pub open spec fn is_in_text(issue: IssueView, text: Seq<char>) -> bool {
    &&& 0 <= issue.char_start < issue.char_end <= text.len()
    &&& issue.word == text.subrange(issue.char_start, issue.char_end)
}

/// The cells underlined for a word are as many as its characters.
pub proof fn span_is_as_wide_as_word(m: EchoModel, screen: ScreenState, issue: IssueView)
    requires
        is_in_text(issue, m.buffer_text),
        span_of(m, screen, issue) is Some,
    ensures
        ({
            let span = span_of(m, screen, issue)->0;
            &&& span.col_end == span.col_start + span.word.len()
            &&& span.word == issue.word
            &&& 0 <= span.row < screen.rows
            &&& 0 <= span.col_start
            &&& span.col_end <= screen.cols
        }),
{
    let lines = line_spans(m.buffer_text);
    let i = line_of(lines, issue.char_start, issue.char_end);
    line_spans_bounds(m.buffer_text);
    line_of_bounds(lines, issue.char_start, issue.char_end);
    let text = m.buffer_text.subrange(lines[i].0, lines[i].1);
    let cols = screen.cols as int;
    let at = latest_shown(m.grid, text, cols)->0;
    let cells = char_cells(m.grid, cols, text, at)->0;
    let start = issue.char_start - lines[i].0;
    let end = issue.char_end - lines[i].0;
    let n = text.len() as int;
    assert(text.len() > 0);
    cells_in_order(m.grid, cols, text, at.row as int, at.col as int, end, n);
    cells_in_order(m.grid, cols, text, at.row as int, at.col as int, start + 1, end);
    assert(cells[start] == last_cell(
        walked(m.grid, cols, text, at.row as int, at.col as int, start + 1)->0,
    ));
    assert(cells[end - 1] == last_cell(
        walked(m.grid, cols, text, at.row as int, at.col as int, end)->0,
    ));
}

proof fn line_spans_bounds(text: Seq<char>)
    ensures
        line_spans(text).len() > 0,
        forall|i: int|
            0 <= i < line_spans(text).len() ==> 0 <= (#[trigger] line_spans(text)[i]).0
                <= line_spans(text)[i].1 <= text.len(),
    decreases text.len(),
{
    if text.len() > 0 {
        line_spans_bounds(text.drop_last());
        let before = line_spans(text.drop_last());
        assert(before[before.len() - 1].0 <= before[before.len() - 1].1);
        assert forall|i: int| 0 <= i < line_spans(text).len() implies 0 <= (
        #[trigger] line_spans(text)[i]).0 <= line_spans(text)[i].1 <= text.len() by {
            if i < before.len() - 1 {
                assert(line_spans(text)[i] == before[i]);
            } else if i < before.len() && text.last() == '\n' {
                assert(line_spans(text)[i] == before[i]);
            }
        }
    }
}

proof fn line_of_bounds(lines: Seq<(int, int)>, start: int, end: int)
    ensures
        -1 <= line_of(lines, start, end) < lines.len(),
        line_of(lines, start, end) >= 0 ==> lines[line_of(lines, start, end)].0 <= start && end
            <= lines[line_of(lines, start, end)].1,
    decreases lines.len(),
{
    if lines.len() > 0 {
        line_of_bounds(lines.drop_last(), start, end);
    }
}

proof fn spans_come_from_issues(m: EchoModel, screen: ScreenState, grammar: bool, k: int, j: int)
    requires
        0 <= k <= m.lints.len(),
        0 <= j < spans_of(m, screen, grammar, k).len(),
    ensures
        exists|i: int|
            0 <= i < k && paintable(#[trigger] m.lints[i], grammar) && span_of(
                m,
                screen,
                m.lints[i],
            ) == Some(spans_of(m, screen, grammar, k)[j]),
    decreases k,
{
    let before = spans_of(m, screen, grammar, k - 1);
    if j < before.len() {
        assert(spans_of(m, screen, grammar, k)[j] == before[j]);
        spans_come_from_issues(m, screen, grammar, k - 1, j);
        let i = choose|i: int|
            0 <= i < k - 1 && paintable(#[trigger] m.lints[i], grammar) && span_of(
                m,
                screen,
                m.lints[i],
            ) == Some(before[j]);
        assert(paintable(m.lints[i], grammar));
    } else {
        assert(paintable(m.lints[k - 1], grammar));
    }
}

/// Only issues that are shown at all, have a suggestion and are not being
/// typed on the last line are underlined.
pub proof fn underlined_issues_are_paintable(
    m: EchoModel,
    screen: ScreenState,
    grammar: bool,
    j: int,
)
    requires
        0 <= j < new_spans(m, screen, grammar).len(),
    ensures
        exists|i: int|
            0 <= i < m.lints.len() && paintable(#[trigger] m.lints[i], grammar) && span_of(
                m,
                screen,
                m.lints[i],
            ) == Some(new_spans(m, screen, grammar)[j]) && !(line_of(
                line_spans(m.buffer_text),
                m.lints[i].char_start,
                m.lints[i].char_end,
            ) == last_filled(line_spans(m.buffer_text)) && m.lints[i].char_end == m.buffer_chars),
{
    let n = m.lints.len() as int;
    spans_come_from_issues(m, screen, grammar, n, j);
    let i = choose|i: int|
        0 <= i < n && paintable(#[trigger] m.lints[i], grammar) && span_of(m, screen, m.lints[i])
            == Some(spans_of(m, screen, grammar, n)[j]);
    assert(paintable(m.lints[i], grammar));
}

proof fn clear_strokes_fit(grid: Map<u32, Cell>, row: int, col: int, to: int, rows: int, cols: int)
    requires
        0 <= row < rows,
        0 <= col,
        to <= cols,
    ensures
        forall|i: int|
            0 <= i < clear_strokes(grid, row, col, to).len() ==> crate::ansi::stroke_fits(
                #[trigger] clear_strokes(grid, row, col, to)[i],
                rows,
                cols,
            ),
    decreases to - col,
{
    if col < to {
        let end = stretch_end(grid, row, col, to, true);
        stretch_props(grid, row, col, to, true);
        let next = stretch_end(grid, row, end, to, false);
        stretch_props(grid, row, end, to, false);
        if next > col {
            clear_strokes_fit(grid, row, next, to, rows, cols);
            let rest = clear_strokes(grid, row, next, to);
            let strokes = clear_strokes(grid, row, col, to);
            let shift = strokes.len() - rest.len();
            assert forall|i: int| 0 <= i < strokes.len() implies crate::ansi::stroke_fits(
                #[trigger] strokes[i],
                rows,
                cols,
            ) by {
                if i >= shift {
                    assert(strokes[i] == rest[i - shift]);
                }
            }
        }
    }
}

proof fn all_clear_strokes_fit(
    grid: Map<u32, Cell>,
    stale: Seq<PaintedSpan>,
    rows: int,
    cols: int,
)
    requires
        forall|i: int|
            0 <= i < stale.len() ==> (#[trigger] stale[i]).row < rows && stale[i].col_end <= cols,
    ensures
        forall|i: int|
            0 <= i < all_clear_strokes(grid, stale).len() ==> crate::ansi::stroke_fits(
                #[trigger] all_clear_strokes(grid, stale)[i],
                rows,
                cols,
            ),
    decreases stale.len(),
{
    if stale.len() > 0 {
        let rest = stale.drop_last();
        assert forall|i: int| 0 <= i < rest.len() implies (#[trigger] rest[i]).row < rows
            && rest[i].col_end <= cols by {
            assert(rest[i] == stale[i]);
        }
        all_clear_strokes_fit(grid, rest, rows, cols);
        let last = stale[stale.len() - 1];
        clear_strokes_fit(
            grid,
            last.row as int,
            last.col_start as int,
            last.col_end as int,
            rows,
            cols,
        );
        let a = all_clear_strokes(grid, rest);
        let b = clear_strokes(grid, last.row as int, last.col_start as int, last.col_end as int);
        assert forall|i: int|
            0 <= i < all_clear_strokes(grid, stale).len() implies crate::ansi::stroke_fits(
            #[trigger] all_clear_strokes(grid, stale)[i],
            rows,
            cols,
        ) by {
            if i < a.len() {
                assert(all_clear_strokes(grid, stale)[i] == a[i]);
            } else {
                assert(all_clear_strokes(grid, stale)[i] == b[i - a.len()]);
            }
        }
    }
}

proof fn stale_come_from_painted(painted: Seq<PaintedSpan>, wanted: Seq<PaintedSpan>, i: int)
    requires
        0 <= i < stale_spans(painted, wanted).len(),
    ensures
        painted.contains(stale_spans(painted, wanted)[i]),
    decreases painted.len(),
{
    let before = stale_spans(painted.drop_last(), wanted);
    if i < before.len() {
        stale_come_from_painted(painted.drop_last(), wanted, i);
        assert(stale_spans(painted, wanted)[i] == before[i]);
        let j = painted.drop_last().index_of(before[i]);
        assert(painted[j] == before[i]);
    } else {
        assert(painted[painted.len() - 1] == stale_spans(painted, wanted)[i]);
    }
}

/// Painting leaves the child's cursor where it was, and no wrap pending that
/// was not before, as long as the cursor and what was painted before are on
/// the screen and every issue lies in the text.
pub proof fn painting_restores_cursor(
    painted: Seq<PaintedSpan>,
    m: EchoModel,
    screen: ScreenState,
    style: UnderlineStyle,
    grammar: bool,
)
    requires
        screen.wf(),
        screen.cursor_on_screen(),
        forall|i: int| 0 <= i < m.lints.len() ==> is_in_text(#[trigger] m.lints[i], m.buffer_text),
        forall|i: int|
            0 <= i < painted.len() ==> (#[trigger] painted[i]).row < screen.rows
                && painted[i].col_end <= screen.cols,
    ensures
        ({
            let strokes = paint_strokes(painted, m, screen, style, grammar);
            let after = crate::ansi::run_all(
                screen,
                drawn_from(screen.cols as int, home(screen), strokes),
            );
            &&& crate::ansi::same_screen_at(screen, after, pos(screen.cursor))
            &&& after.pending_wrap ==> screen.pending_wrap
        }),
{
    let rows = screen.rows as int;
    let cols = screen.cols as int;
    let spans = new_spans(m, screen, grammar);
    let stale = stale_spans(painted, keys(spans));
    let strokes = paint_strokes(painted, m, screen, style, grammar);
    let clears = all_clear_strokes(m.grid, stale);
    assert forall|i: int| 0 <= i < stale.len() implies (#[trigger] stale[i]).row < rows
        && stale[i].col_end <= cols by {
        stale_come_from_painted(painted, keys(spans), i);
        let j = painted.index_of(stale[i]);
        assert(painted[j] == stale[i]);
    }
    all_clear_strokes_fit(m.grid, stale, rows, cols);
    assert forall|i: int| 0 <= i < strokes.len() implies crate::ansi::stroke_fits(
        #[trigger] strokes[i],
        rows,
        cols,
    ) by {
        if i < clears.len() {
            assert(strokes[i] == clears[i]);
        } else {
            let j = i - clears.len();
            assert(strokes[i] == underline_stroke(spans[j], style));
            spans_come_from_issues(m, screen, grammar, m.lints.len() as int, j);
            let k = choose|k: int|
                0 <= k < m.lints.len() && paintable(#[trigger] m.lints[k], grammar) && span_of(
                    m,
                    screen,
                    m.lints[k],
                ) == Some(spans[j]);
            assert(is_in_text(m.lints[k], m.buffer_text));
            span_is_as_wide_as_word(m, screen, m.lints[k]);
        }
    }
    assert(home(screen) == pos(screen.cursor));
    crate::ansi::drawing_restores_cursor(screen, strokes);
}

proof fn last_line_span(text: Seq<char>)
    ensures
        line_spans(text).len() > 0,
        line_spans(text).last().1 == text.len(),
    decreases text.len(),
{
    if text.len() > 0 {
        last_line_span(text.drop_last());
    }
}

proof fn line_ends_once(text: Seq<char>, a: int, b: int, end: int)
    requires
        is_line(text, a, end),
        is_line(text, b, end),
    ensures
        a == b,
{
    if a < b {
        assert(text[b - 1] == '\n');
    }
    if b < a {
        assert(text[a - 1] == '\n');
    }
}

/// The ranges that a text is cut into are its lines, all of them and nothing
/// else.
pub proof fn text_is_cut_into_its_lines(text: Seq<char>, a: int, b: int)
    ensures
        line_spans(text).contains((a, b)) <==> is_line(text, a, b),
    decreases text.len(),
{
    let lines = line_spans(text);
    let n = text.len() as int;
    if n == 0 {
        assert(lines[0] == (0int, 0int));
        if is_line(text, a, b) {
            assert(lines.contains((a, b)));
        }
    } else {
        let init = text.drop_last();
        let before = line_spans(init);
        last_line_span(init);
        last_line_span(text);
        let last = before.last();
        assert(before[before.len() - 1] == last);
        text_is_cut_into_its_lines(init, last.0, last.1);
        assert(before.contains(last));
        assert(forall|i: int| 0 <= i < n - 1 ==> init[i] == text[i]);
        if text.last() == '\n' {
            text_is_cut_into_its_lines(init, a, b);
            assert(lines == before.push((n, n)));
            assert(lines[before.len() as int] == (n, n));
            if is_line(text, a, b) {
                if b < n {
                    assert(is_line(init, a, b));
                    let i = before.index_of((a, b));
                    assert(lines[i] == (a, b));
                } else {
                    if a < n {
                        assert(text[n - 1] != '\n');
                    }
                }
            }
            if lines.contains((a, b)) {
                let i = lines.index_of((a, b));
                if i < before.len() {
                    assert(before[i] == (a, b));
                    assert(is_line(init, a, b));
                }
            }
        } else {
            let kept = before.drop_last();
            assert(lines == kept.push((last.0, n)));
            assert(lines[kept.len() as int] == (last.0, n));
            if is_line(text, a, b) {
                if b < n {
                    assert(text[b] == '\n');
                    assert(is_line(init, a, b));
                    text_is_cut_into_its_lines(init, a, b);
                    let i = before.index_of((a, b));
                    assert(i < kept.len());
                    assert(lines[i] == (a, b));
                } else {
                    assert(is_line(init, a, n - 1)) by {
                        if a == n {
                            assert(text[n - 1] == '\n');
                        }
                    }
                    line_ends_once(init, a, last.0, n - 1);
                }
            }
            if lines.contains((a, b)) {
                let i = lines.index_of((a, b));
                if i < kept.len() {
                    assert(before[i] == (a, b));
                    text_is_cut_into_its_lines(init, a, b);
                    line_before_last(init, i);
                    assert(is_line(text, a, b));
                }
            }
        }
    }
}

/// Only the last line ends where the text does.
proof fn line_before_last(text: Seq<char>, i: int)
    requires
        0 <= i < line_spans(text).len() - 1,
    ensures
        line_spans(text)[i].1 < text.len(),
    decreases text.len(),
{
    if text.len() > 0 {
        let init = text.drop_last();
        let before = line_spans(init);
        line_spans_bounds(init);
        if i < before.len() - 1 {
            line_before_last(init, i);
        } else {
            assert(line_spans(text)[i] == before[i]);
        }
    }
}

/// The line of a range is the one that holds it.
proof fn line_is_found(text: Seq<char>, a: int, b: int, start: int, end: int)
    requires
        is_line(text, a, b),
        a <= start < end <= b,
    ensures
        ({
            let lines = line_spans(text);
            let i = line_of(lines, start, end);
            &&& 0 <= i < lines.len()
            &&& lines[i] == (a, b)
            &&& i <= last_filled(lines)
        }),
{
    let lines = line_spans(text);
    text_is_cut_into_its_lines(text, a, b);
    let k = lines.index_of((a, b));
    line_of_finds(lines, start, end, k);
    line_of_bounds(lines, start, end);
    let i = line_of(lines, start, end);
    let (c, d) = lines[i];
    assert(lines.contains((c, d)));
    text_is_cut_into_its_lines(text, c, d);
    assert(c == a) by {
        if c < a {
            assert(text[a - 1] == '\n');
        }
        if a < c {
            assert(text[c - 1] == '\n');
        }
    }
    assert(d == b) by {
        if d < b {
            assert(text[d] == '\n');
        }
        if b < d {
            assert(text[b] == '\n');
        }
    }
    filled_is_not_after(lines, i);
}

proof fn line_of_finds(lines: Seq<(int, int)>, start: int, end: int, k: int)
    requires
        0 <= k < lines.len(),
        lines[k].0 <= start,
        end <= lines[k].1,
    ensures
        line_of(lines, start, end) >= 0,
    decreases lines.len(),
{
    if k < lines.len() - 1 {
        line_of_finds(lines.drop_last(), start, end, k);
    }
}

proof fn filled_is_not_after(lines: Seq<(int, int)>, i: int)
    requires
        0 <= i < lines.len(),
        lines[i].0 < lines[i].1,
    ensures
        i <= last_filled(lines),
    decreases lines.len(),
{
    if i < lines.len() - 1 {
        filled_is_not_after(lines.drop_last(), i);
    }
}

/// Whether an issue is shown: a misspelling always, a grammar issue where
/// grammar is on, either with at least one suggestion.
pub open spec fn is_shown(issue: IssueView, grammar: bool) -> bool {
    &&& issue.category == IssueCategory::Spelling || (issue.category == IssueCategory::Grammar
        && grammar)
    &&& issue.suggestions.len() > 0
}

/// Whether a span covers the cells `from..to` of a row for a word.
pub open spec fn covers_word(span: SpanView, row: int, from: int, to: int, word: Seq<char>) -> bool {
    span.row == row && span.col_start == from && span.col_end == to && span.word == word
}

/// Every issue has its underline: where the screen shows the buffer, an issue
/// that is shown, has been typed to its end and lies on one row of the screen
/// is underlined in the cells of its characters, however many suggestions it
/// has and whatever other issues there are.
pub proof fn shown_issues_are_underlined(
    m: EchoModel,
    screen: ScreenState,
    grammar: bool,
    i: int,
    line: (int, int),
    at: CursorPos,
)
    requires
        m.lints.len() > 0,
        m.buffer_chars > 0,
        m.anchor(screen.cols) matches Some(anchor) && anchor.row < screen.rows,
        forall|k: int| 0 <= k < m.lints.len() ==> is_in_text(#[trigger] m.lints[k], m.buffer_text),
        0 <= i < m.lints.len(),
        is_shown(m.lints[i], grammar),
        m.lints[i].char_end != m.buffer_chars,
        is_line(m.buffer_text, line.0, line.1),
        line.0 <= m.lints[i].char_start,
        m.lints[i].char_end <= line.1,
        latest_shown(
            m.grid,
            m.buffer_text.subrange(line.0, line.1),
            screen.cols as int,
        ) == Some(at),
        ({
            let text = m.buffer_text.subrange(line.0, line.1);
            let start = m.lints[i].char_start - line.0;
            let end = m.lints[i].char_end - line.0;
            let cols = screen.cols as int;
            let first = place_of(m.grid, cols, text, at.row as int, at.col as int, start);
            let last = place_of(m.grid, cols, text, at.row as int, at.col as int, end - 1);
            first.0 == last.0 && first.0 < screen.rows && last.1 < screen.cols && glyph(
                m.grid,
                first.0,
                first.1,
            ) is Some
        }),
    ensures
        ({
            let issue = m.lints[i];
            let text = m.buffer_text.subrange(line.0, line.1);
            let (row, col) = place_of(
                m.grid,
                screen.cols as int,
                text,
                at.row as int,
                at.col as int,
                issue.char_start - line.0,
            );
            let spans = new_spans(m, screen, grammar);
            exists|j: int|
                0 <= j < spans.len() && covers_word(
                    #[trigger] spans[j],
                    row,
                    col,
                    col + (issue.char_end - issue.char_start),
                    issue.word,
                )
        }),
{
    let issue = m.lints[i];
    let text = m.buffer_text.subrange(line.0, line.1);
    let cols = screen.cols as int;
    let start = issue.char_start - line.0;
    let end = issue.char_end - line.0;
    assert(is_in_text(issue, m.buffer_text));
    line_is_found(m.buffer_text, line.0, line.1, issue.char_start, issue.char_end);
    found_place_shows(m.grid, cols, text, at);
    let row = at.row as int;
    let col = at.col as int;
    let n = text.len() as int;
    cells_in_order(m.grid, cols, text, row, col, end, n);
    cells_in_order(m.grid, cols, text, row, col, start + 1, end);
    let first = place_of(m.grid, cols, text, row, col, start);
    let last = place_of(m.grid, cols, text, row, col, end - 1);
    crate::grid::found_text_is_shown(m.grid, cols, text, row, col, start);
    let cells = char_cells(m.grid, cols, text, at)->0;
    assert(cells[start] == last_cell(walked(m.grid, cols, text, row, col, start + 1)->0));
    assert(cells[end - 1] == last_cell(walked(m.grid, cols, text, row, col, end)->0));
    assert(text[start] == issue.word[0]);
    let span = SpanView {
        row: first.0,
        col_start: first.1,
        col_end: last.1 + 1,
        word: issue.word,
    };
    assert(span_of(m, screen, issue) == Some(span));
    let k = first_such(m, grammar, i);
    let same = m.lints[k];
    assert(is_in_text(same, m.buffer_text));
    assert(same.word == issue.word);
    assert(span_of(m, screen, same) == Some(span)) by {
        assert(same.char_start == issue.char_start && same.char_end == issue.char_end);
    }
    span_is_listed(m, screen, grammar, k, m.lints.len() as int);
    let spans = new_spans(m, screen, grammar);
    let j = choose|j: int| 0 <= j < spans.len() && #[trigger] spans[j] == span;
    assert(covers_word(
        spans[j],
        first.0,
        first.1,
        first.1 + (issue.char_end - issue.char_start),
        issue.word,
    ));
}

/// Where a text is found, it is shown.
proof fn found_place_shows(grid: Map<u32, Cell>, cols: int, text: Seq<char>, at: CursorPos)
    requires
        latest_shown(grid, text, cols) == Some(at),
    ensures
        text.len() > 0,
        shown_at(grid, cols, text, at.row as int, at.col as int) is Some,
{
    let key = choose|key: u32| crate::grid::is_latest_shown(grid, cols, text, key);
    crate::grid::key_position(key);
}

/// The first issue that is shown and has the range of the one at `i`.
proof fn first_such(m: EchoModel, grammar: bool, i: int) -> (k: int)
    requires
        0 <= i < m.lints.len(),
        paintable(m.lints[i], grammar),
    ensures
        0 <= k <= i,
        paintable(m.lints[k], grammar),
        m.lints[k].char_start == m.lints[i].char_start,
        m.lints[k].char_end == m.lints[i].char_end,
        !is_repeated(m.lints, k, grammar),
    decreases i,
{
    if is_repeated(m.lints, i, grammar) {
        let j = choose|j: int|
            0 <= j < i && paintable(#[trigger] m.lints[j], grammar) && m.lints[j].char_start
                == m.lints[i].char_start && m.lints[j].char_end == m.lints[i].char_end;
        first_such(m, grammar, j)
    } else {
        i
    }
}

proof fn span_is_listed(m: EchoModel, screen: ScreenState, grammar: bool, k: int, n: int)
    requires
        0 <= k < n <= m.lints.len(),
        paintable(m.lints[k], grammar),
        !is_repeated(m.lints, k, grammar),
        span_of(m, screen, m.lints[k]) is Some,
    ensures
        exists|j: int|
            0 <= j < spans_of(m, screen, grammar, n).len() && #[trigger] spans_of(
                m,
                screen,
                grammar,
                n,
            )[j] == span_of(m, screen, m.lints[k])->0,
    decreases n,
{
    let before = spans_of(m, screen, grammar, n - 1);
    let all = spans_of(m, screen, grammar, n);
    if k == n - 1 {
        assert(all[before.len() as int] == span_of(m, screen, m.lints[k])->0);
    } else {
        span_is_listed(m, screen, grammar, k, n - 1);
        let j = choose|j: int|
            0 <= j < before.len() && #[trigger] before[j] == span_of(m, screen, m.lints[k])->0;
        assert(all[j] == before[j]);
    }
}

/// The plain case: a line that stands in one row of the screen, and nowhere
/// later, has every shown and finished misspelling in it underlined at its
/// place.
pub proof fn misspellings_in_a_row_are_underlined(
    m: EchoModel,
    screen: ScreenState,
    grammar: bool,
    i: int,
    line: (int, int),
    at: CursorPos,
)
    requires
        m.lints.len() > 0,
        m.buffer_chars > 0,
        m.anchor(screen.cols) matches Some(anchor) && anchor.row < screen.rows,
        forall|k: int| 0 <= k < m.lints.len() ==> is_in_text(#[trigger] m.lints[k], m.buffer_text),
        0 <= i < m.lints.len(),
        is_shown(m.lints[i], grammar),
        m.lints[i].char_end != m.buffer_chars,
        is_line(m.buffer_text, line.0, line.1),
        line.0 <= m.lints[i].char_start,
        m.lints[i].char_end <= line.1,
        in_a_row(
            m.grid,
            screen.cols as int,
            m.buffer_text.subrange(line.0, line.1),
            at.row as int,
            at.col as int,
        ),
        at.row < screen.rows,
        latest_shown(
            m.grid,
            m.buffer_text.subrange(line.0, line.1),
            screen.cols as int,
        ) == Some(at),
    ensures
        ({
            let issue = m.lints[i];
            let spans = new_spans(m, screen, grammar);
            exists|j: int|
                0 <= j < spans.len() && covers_word(
                    #[trigger] spans[j],
                    at.row as int,
                    at.col + (issue.char_start - line.0),
                    at.col + (issue.char_end - line.0),
                    issue.word,
                )
        }),
{
    let issue = m.lints[i];
    assert(is_in_text(issue, m.buffer_text));
    let text = m.buffer_text.subrange(line.0, line.1);
    let cols = screen.cols as int;
    let row = at.row as int;
    let col = at.col as int;
    let start = issue.char_start - line.0;
    let end = issue.char_end - line.0;
    crate::grid::row_place(m.grid, cols, text, row, col, start);
    crate::grid::row_place(m.grid, cols, text, row, col, end - 1);
    assert(text[start] == text[start]);
    shown_issues_are_underlined(m, screen, grammar, i, line, at);
    let spans = new_spans(m, screen, grammar);
    let j = choose|j: int|
        0 <= j < spans.len() && covers_word(
            #[trigger] spans[j],
            row,
            col + start,
            col + start + (issue.char_end - issue.char_start),
            issue.word,
        );
    assert(covers_word(spans[j], row, col + start, col + end, issue.word));
}

/// What is underlined is the word: each cell of a span shows the character of
/// the word that is drawn there.
pub proof fn underlined_cells_show_the_word(
    m: EchoModel,
    screen: ScreenState,
    issue: IssueView,
    k: int,
)
    requires
        is_in_text(issue, m.buffer_text),
        span_of(m, screen, issue) is Some,
        0 <= k < issue.word.len(),
    ensures
        ({
            let span = span_of(m, screen, issue)->0;
            shows(m.grid, span.row, span.col_start + k, issue.word[k])
        }),
{
    let lines = line_spans(m.buffer_text);
    let i = line_of(lines, issue.char_start, issue.char_end);
    line_spans_bounds(m.buffer_text);
    line_of_bounds(lines, issue.char_start, issue.char_end);
    let text = m.buffer_text.subrange(lines[i].0, lines[i].1);
    let cols = screen.cols as int;
    let at = latest_shown(m.grid, text, cols)->0;
    found_place_shows(m.grid, cols, text, at);
    let row = at.row as int;
    let col = at.col as int;
    let start = issue.char_start - lines[i].0;
    let end = issue.char_end - lines[i].0;
    let n = text.len() as int;
    cells_in_order(m.grid, cols, text, row, col, end, n);
    cells_in_order(m.grid, cols, text, row, col, start + 1, end);
    cells_in_order(m.grid, cols, text, row, col, start + 1 + k, end);
    cells_in_order(m.grid, cols, text, row, col, start + 1, start + 1 + k);
    let cells = char_cells(m.grid, cols, text, at)->0;
    assert(cells[start] == last_cell(walked(m.grid, cols, text, row, col, start + 1)->0));
    assert(cells[end - 1] == last_cell(walked(m.grid, cols, text, row, col, end)->0));
    crate::grid::found_text_is_shown(m.grid, cols, text, row, col, start + k);
    assert(text[start + k] == issue.word[k]);
}

/// A word that is still being typed at the end of the buffer is not
/// underlined, nor is an issue that is not shown.
pub proof fn unfinished_words_are_left_alone(
    m: EchoModel,
    screen: ScreenState,
    grammar: bool,
    j: int,
)
    requires
        m.buffer_chars == m.buffer_text.len(),
        forall|k: int| 0 <= k < m.lints.len() ==> is_in_text(#[trigger] m.lints[k], m.buffer_text),
        0 <= j < new_spans(m, screen, grammar).len(),
    ensures
        exists|i: int|
            0 <= i < m.lints.len() && is_shown(#[trigger] m.lints[i], grammar)
                && m.lints[i].char_end < m.buffer_text.len() && m.lints[i].word == new_spans(
                m,
                screen,
                grammar,
            )[j].word,
{
    underlined_issues_are_paintable(m, screen, grammar, j);
    let spans = new_spans(m, screen, grammar);
    let i = choose|i: int|
        0 <= i < m.lints.len() && paintable(#[trigger] m.lints[i], grammar) && span_of(
            m,
            screen,
            m.lints[i],
        ) == Some(spans[j]) && !(line_of(
            line_spans(m.buffer_text),
            m.lints[i].char_start,
            m.lints[i].char_end,
        ) == last_filled(line_spans(m.buffer_text)) && m.lints[i].char_end == m.buffer_chars);
    let issue = m.lints[i];
    assert(is_in_text(issue, m.buffer_text));
    let lines = line_spans(m.buffer_text);
    let l = line_of(lines, issue.char_start, issue.char_end);
    line_of_bounds(lines, issue.char_start, issue.char_end);
    if issue.char_end == m.buffer_text.len() {
        line_spans_bounds(m.buffer_text);
        if l < lines.len() - 1 {
            line_before_last(m.buffer_text, l);
        }
        assert(l == lines.len() - 1);
        assert(lines.last().0 < lines.last().1);
        assert(last_filled(lines) == l);
    }
}

/// The strokes of a paint underline exactly the words to underline, each from
/// its first cell on, between the codes that turn an underline on and off.
pub proof fn each_word_gets_its_stroke(
    painted: Seq<PaintedSpan>,
    m: EchoModel,
    screen: ScreenState,
    style: UnderlineStyle,
    grammar: bool,
    j: int,
)
    requires
        0 <= j < new_spans(m, screen, grammar).len(),
    ensures
        ({
            let span = new_spans(m, screen, grammar)[j];
            let strokes = paint_strokes(painted, m, screen, style, grammar);
            let k = strokes.len() - new_spans(m, screen, grammar).len() + j;
            &&& 0 <= k < strokes.len()
            &&& strokes[k].row == span.row
            &&& strokes[k].col == span.col_start
            &&& strokes[k].text == span.word
            &&& strokes[k].open == style.opening()
            &&& strokes[k].close == style.closing()
        }),
{
}

/// What was painted and is no longer wanted is cleared: each of its cells that
/// the screen is known to show something in is written anew without an
/// underline.
pub proof fn stale_underlines_are_cleared(
    painted: Seq<PaintedSpan>,
    m: EchoModel,
    screen: ScreenState,
    style: UnderlineStyle,
    grammar: bool,
    i: int,
    c: int,
)
    requires
        0 <= i < painted.len(),
        painted[i].col_start <= c < painted[i].col_end,
        glyph(m.grid, painted[i].row as int, c) is Some,
        forall|j: int|
            0 <= j < new_spans(m, screen, grammar).len() ==> key(
                #[trigger] new_spans(m, screen, grammar)[j],
            ) != painted[i],
    ensures
        ({
            let strokes = paint_strokes(painted, m, screen, style, grammar);
            exists|k: int|
                0 <= k < strokes.len() && #[trigger] rewrites(
                    strokes[k],
                    painted[i].row as int,
                    c,
                    glyph(m.grid, painted[i].row as int, c)->0,
                ) && strokes[k].open == "\x1b[24m"@
        }),
{
    let wanted = keys(new_spans(m, screen, grammar));
    let stale = stale_spans(painted, wanted);
    assert(!wanted.contains(painted[i]));
    unwanted_is_stale(painted, wanted, i);
    let s = stale.index_of(painted[i]);
    stale_is_cleared(m.grid, stale, s, c);
    let clears = all_clear_strokes(m.grid, stale);
    let ch = glyph(m.grid, painted[i].row as int, c)->0;
    let k = choose|k: int|
        0 <= k < clears.len() && #[trigger] rewrites(clears[k], stale[s].row as int, c, ch)
            && clears[k].open == PLAIN.closing();
    let strokes = paint_strokes(painted, m, screen, style, grammar);
    assert(strokes[k] == clears[k]);
    assert(rewrites(strokes[k], painted[i].row as int, c, ch));
}

proof fn unwanted_is_stale(painted: Seq<PaintedSpan>, wanted: Seq<PaintedSpan>, i: int)
    requires
        0 <= i < painted.len(),
        !wanted.contains(painted[i]),
    ensures
        stale_spans(painted, wanted).contains(painted[i]),
    decreases painted.len(),
{
    let init = painted.drop_last();
    let before = stale_spans(init, wanted);
    let all = stale_spans(painted, wanted);
    if i < init.len() {
        unwanted_is_stale(init, wanted, i);
        let k = before.index_of(painted[i]);
        assert(all[k] == before[k]);
    } else {
        assert(all[before.len() as int] == painted[i]);
    }
}

proof fn stale_is_cleared(grid: Map<u32, Cell>, stale: Seq<PaintedSpan>, s: int, c: int)
    requires
        0 <= s < stale.len(),
        stale[s].col_start <= c < stale[s].col_end,
        glyph(grid, stale[s].row as int, c) is Some,
    ensures
        exists|k: int|
            0 <= k < all_clear_strokes(grid, stale).len() && #[trigger] rewrites(
                all_clear_strokes(grid, stale)[k],
                stale[s].row as int,
                c,
                glyph(grid, stale[s].row as int, c)->0,
            ) && all_clear_strokes(grid, stale)[k].open == PLAIN.closing(),
    decreases stale.len(),
{
    let row = stale[s].row as int;
    let ch = glyph(grid, row, c)->0;
    let init = stale.drop_last();
    let before = all_clear_strokes(grid, init);
    let all = all_clear_strokes(grid, stale);
    if s < init.len() {
        stale_is_cleared(grid, init, s, c);
        let k = choose|k: int|
            0 <= k < before.len() && #[trigger] rewrites(before[k], row, c, ch) && before[k].open
                == PLAIN.closing();
        assert(all[k] == before[k]);
        assert(rewrites(all[k], row, c, ch));
    } else {
        let from = stale[s].col_start as int;
        let to = stale[s].col_end as int;
        let last = clear_strokes(grid, row, from, to);
        known_cells_are_cleared(grid, row, from, to, c);
        let k = choose|k: int|
            0 <= k < last.len() && rewrites(#[trigger] last[k], row, c, ch);
        clear_strokes_are_plain(grid, row, from, to, k);
        assert(all[before.len() + k] == last[k]);
        assert(rewrites(all[before.len() + k], row, c, ch));
    }
}

proof fn clear_strokes_are_plain(grid: Map<u32, Cell>, row: int, col: int, to: int, k: int)
    requires
        0 <= k < clear_strokes(grid, row, col, to).len(),
    ensures
        clear_strokes(grid, row, col, to)[k].open == PLAIN.closing(),
    decreases to - col,
{
    let end = stretch_end(grid, row, col, to, true);
    let next = stretch_end(grid, row, end, to, false);
    let rest = clear_strokes(grid, row, next, to);
    let all = clear_strokes(grid, row, col, to);
    let shift = all.len() - rest.len();
    if k >= shift {
        clear_strokes_are_plain(grid, row, next, to, k - shift);
        assert(all[k] == rest[k - shift]);
    }
}

/// Painting waits for the pause after the last keystroke and no longer.
pub proof fn paint_waits_for_the_pause(gate: GateModel, now: Instant)
    ensures
        gate.last_keystroke_at is None ==> gate.paused(now),
        gate.last_keystroke_at matches Some(t) ==> {
            &&& now.nanos >= t.nanos + gate.pause.nanos ==> gate.paused(now)
            &&& t.nanos <= now.nanos < t.nanos + gate.pause.nanos ==> !gate.paused(now)
        },
{
}

/// The codes around a word turn an underline on and off again: single and
/// plain, or curly and red.
pub proof fn codes_turn_the_underline_on_and_off()
    ensures
        UnderlineStyle::Plain.opening() == seq!['\x1b', '[', '4', 'm'],
        UnderlineStyle::Plain.closing() == seq!['\x1b', '[', '2', '4', 'm'],
        seq!['\x1b', '[', '4', ':', '3', 'm'].is_prefix_of(UnderlineStyle::Fancy.opening()),
        ({
            let close = UnderlineStyle::Fancy.closing();
            close.len() >= 5 && close.skip(close.len() - 5) == seq!['\x1b', '[', '2', '4', 'm']
        }),
{
    reveal_strlit("\x1b[4m");
    reveal_strlit("\x1b[24m");
    reveal_strlit("\x1b[4:3m\x1b[58:2::255:0:0m");
    reveal_strlit("\x1b[59m\x1b[24m");
    assert(UnderlineStyle::Plain.opening() =~= seq!['\x1b', '[', '4', 'm']);
    assert(UnderlineStyle::Plain.closing() =~= seq!['\x1b', '[', '2', '4', 'm']);
    let open = UnderlineStyle::Fancy.opening();
    let close = UnderlineStyle::Fancy.closing();
    assert(open.subrange(0, 6) =~= seq!['\x1b', '[', '4', ':', '3', 'm']);
    assert(close.skip(close.len() - 5) =~= seq!['\x1b', '[', '2', '4', 'm']);
}

/// A fresh painter has something to paint and no keystroke to wait for.
pub proof fn painter_starts_ready(pause: Duration, now: Instant)
    ensures
        GateModel::init(pause).dirty,
        GateModel::init(pause).paused(now),
        GateModel::init(pause).painted.len() == 0,
        GateModel::init(pause).pause == pause,
{
}

/// After a paint exactly the words to underline are remembered, and of what
/// was painted before only what could not be cleared.
pub proof fn painted_words_are_remembered(
    painted: Seq<PaintedSpan>,
    m: EchoModel,
    screen: ScreenState,
    grammar: bool,
    span: PaintedSpan,
)
    ensures
        ({
            let after = painted_after(painted, m, screen, grammar);
            let spans = new_spans(m, screen, grammar);
            let wanted = exists|j: int| 0 <= j < spans.len() && key(#[trigger] spans[j]) == span;
            &&& wanted ==> after.contains(span)
            &&& after.contains(span) && !wanted ==> painted.contains(span) && exists|c: int|
                span.col_start <= c < span.col_end && (#[trigger] glyph(
                    m.grid,
                    span.row as int,
                    c,
                )) is None
            &&& painted.contains(span) && !wanted && (exists|c: int|
                span.col_start <= c < span.col_end && (#[trigger] glyph(
                    m.grid,
                    span.row as int,
                    c,
                )) is None) ==> after.contains(span)
        }),
{
    let after = painted_after(painted, m, screen, grammar);
    let spans = new_spans(m, screen, grammar);
    let wanted = keys(spans);
    let stale = stale_spans(painted, wanted);
    let rest = unfinished(m.grid, stale);
    if exists|j: int| 0 <= j < spans.len() && key(#[trigger] spans[j]) == span {
        let j = choose|j: int| 0 <= j < spans.len() && key(#[trigger] spans[j]) == span;
        assert(wanted[j] == span);
        assert(after[j] == span);
    } else {
        assert(!wanted.contains(span)) by {
            if wanted.contains(span) {
                let j = wanted.index_of(span);
                assert(key(spans[j]) == span);
            }
        }
        unfinished_holds(m.grid, stale, span);
        if after.contains(span) {
            let k = after.index_of(span);
            assert(k >= wanted.len()) by {
                if k < wanted.len() {
                    assert(wanted[k] == span);
                }
            }
            assert(rest[k - wanted.len()] == span);
            assert(rest.contains(span));
            let s = stale.index_of(span);
            stale_come_from_painted(painted, wanted, s);
        }
        if painted.contains(span) {
            let i = painted.index_of(span);
            unwanted_is_stale(painted, wanted, i);
            if rest.contains(span) {
                let k = rest.index_of(span);
                assert(after[wanted.len() + k] == span);
            }
        }
    }
}

proof fn unfinished_holds(grid: Map<u32, Cell>, stale: Seq<PaintedSpan>, span: PaintedSpan)
    ensures
        unfinished(grid, stale).contains(span) <==> stale.contains(span) && !all_known(grid, span),
    decreases stale.len(),
{
    if stale.len() > 0 {
        let init = stale.drop_last();
        let last = stale.last();
        let before = unfinished(grid, init);
        let all = unfinished(grid, stale);
        unfinished_holds(grid, init, span);
        assert(stale.contains(span) <==> init.contains(span) || span == last) by {
            if init.contains(span) {
                let i = init.index_of(span);
                assert(stale[i] == span);
            }
            if span == last {
                assert(stale[stale.len() - 1] == span);
            }
            if stale.contains(span) && span != last {
                let i = stale.index_of(span);
                assert(init[i] == span);
            }
        }
        if !all_known(grid, last) {
            assert(all == before.push(last));
            if before.contains(span) {
                let i = before.index_of(span);
                assert(all[i] == span);
            }
            assert(all[before.len() as int] == last);
            if all.contains(span) && span != last {
                let i = all.index_of(span);
                assert(before[i] == span);
            }
        }
    }
}

} // verus!
