//! Echo tracker: what the child has drawn, and what the user has typed.
//!
//! The screen grid mirrors every cell that the child has written. To place an
//! annotation, the buffer text is looked for in the grid, so the order in
//! which the child writes its cells does not matter. Typed characters are
//! also paired with their echoes in order of arrival.
//!
//! A boundary clears the grid: cells of the previous prompt could be taken
//! for the new input. Scrolling is not modelled, so stale cells may stay
//! until they are rewritten.

use crate::event::{InputEvent, InputEventView, PrintEvent, ScreenEvent};
use crate::grid::{cell_key, glyph, is_pruned, latest_shown, Cell, Grid};
use crate::screen::CursorPos;
use crate::spell::{actionable, is_actionable_category, issues_view, IssueCategory, IssueView};
use crate::spell::SpellIssue;
use crate::text::{chars_of, last_line_offset, last_line_start};
use std::collections::{HashMap, VecDeque};
use vstd::prelude::*;

verus! {

broadcast use vstd::std_specs::hash::group_hash_axioms;

/// The most cells that the grid keeps. Beyond it the oldest quarter goes.
pub const GRID_CAP: usize = 16384;

/// What an `EchoMatcher` holds.
#[verifier::ext_equal]
pub struct EchoModel {
    /// Typed characters that wait for their echo, with their offsets.
    pub pending: Seq<(char, usize)>,
    /// Offsets of echoed characters and where the echo was drawn.
    pub positions: Map<usize, CursorPos>,
    pub lints: Seq<IssueView>,
    pub buffer_chars: int,
    pub buffer_text: Seq<char>,
    pub buffer_cursor: int,
    pub grid: Map<u32, Cell>,
    pub next_seq: u64,
    /// Set by a boundary until the next typed character.
    pub boundary_pending: bool,
}

/// The number after `seq`; zero is left out.
pub open spec fn next_seq(seq: u64) -> u64 {
    if seq == u64::MAX {
        1
    } else {
        (seq + 1) as u64
    }
}

/// `grid` without the cells `from..to` of a row.
pub open spec fn without_cells(grid: Map<u32, Cell>, row: int, from: int, to: int) -> Map<u32, Cell>
    decreases to - from,
{
    if from >= to {
        grid
    } else {
        without_cells(grid, row, from, to - 1).remove(cell_key(row, to - 1))
    }
}

/// Where the text ends when the line feeds at its end are left out.
pub open spec fn content_end(text: Seq<char>) -> int
    decreases text.len(),
{
    if text.len() > 0 && text.last() == '\n' {
        content_end(text.drop_last())
    } else {
        text.len() as int
    }
}

/// Where the last line that is not empty starts; zero where all are empty.
pub open spec fn anchor_start(text: Seq<char>) -> int {
    last_line_start(text.take(content_end(text)))
}

/// The last line that is not empty.
pub open spec fn anchor_line(text: Seq<char>) -> Seq<char> {
    text.subrange(anchor_start(text), content_end(text))
}

/// Whether the cursor is on an issue that is shown, its end included.
pub open spec fn is_on(lint: IssueView, cursor: int, grammar: bool) -> bool {
    actionable(lint.category, grammar) && lint.char_start <= cursor <= lint.char_end
}

/// Whether the issue at `i` is the one under the cursor: of those that the
/// cursor is on, the one that starts last, and of several such the first.
pub open spec fn is_hovered(
    lints: Seq<IssueView>,
    cursor: int,
    grammar: bool,
    i: int,
) -> bool {
    &&& 0 <= i < lints.len()
    &&& is_on(lints[i], cursor, grammar)
    &&& forall|j: int|
        0 <= j < lints.len() && is_on(#[trigger] lints[j], cursor, grammar) ==> lints[j].char_start
            < lints[i].char_start || (lints[j].char_start == lints[i].char_start && i <= j)
}

/// The issue under the cursor, by its index.
pub open spec fn hovered(lints: Seq<IssueView>, cursor: int, grammar: bool) -> Option<int> {
    if exists|i: int| is_hovered(lints, cursor, grammar, i) {
        Some(choose|i: int| is_hovered(lints, cursor, grammar, i))
    } else {
        None
    }
}

impl EchoModel {
    pub open spec fn init() -> EchoModel {
        EchoModel {
            pending: Seq::empty(),
            positions: Map::empty(),
            lints: Seq::empty(),
            buffer_chars: 0,
            buffer_text: Seq::empty(),
            buffer_cursor: 0,
            grid: Map::empty(),
            next_seq: 1,
            boundary_pending: false,
        }
    }

    /// The grid is within its limit.
    pub open spec fn wf(self) -> bool {
        self.grid.dom().finite() && self.grid.dom().len() <= GRID_CAP
    }

    pub open spec fn after_input(self, ev: InputEventView) -> EchoModel {
        match ev {
            InputEventView::UserChar { ch, char_offset } => {
                let fresh = if self.boundary_pending {
                    EchoModel {
                        pending: Seq::empty(),
                        positions: Map::empty(),
                        boundary_pending: false,
                        ..self
                    }
                } else {
                    self
                };
                EchoModel { pending: fresh.pending.push((ch, char_offset as usize)), ..fresh }
            },
            InputEventView::Boundary => EchoModel {
                lints: Seq::empty(),
                buffer_chars: 0,
                buffer_text: Seq::empty(),
                buffer_cursor: 0,
                grid: Map::empty(),
                boundary_pending: true,
                ..self
            },
            InputEventView::Lints { issues, buffer_chars, buffer_text, buffer_cursor } => EchoModel {
                lints: issues,
                buffer_chars,
                buffer_text,
                buffer_cursor,
                ..self
            },
            InputEventView::PickerState(_) => self,
        }
    }

    /// The state after a character was drawn, before the grid is brought
    /// under its limit.
    pub open spec fn printed(self, ev: PrintEvent) -> EchoModel {
        let echoed = self.pending.len() > 0 && self.pending[0].0 == ev.ch;
        EchoModel {
            pending: if echoed {
                self.pending.skip(1)
            } else {
                self.pending
            },
            positions: if echoed {
                self.positions.insert(self.pending[0].1, ev.at)
            } else {
                self.positions
            },
            grid: self.grid.insert(
                cell_key(ev.at.row as int, ev.at.col as int),
                Cell { ch: ev.ch, seq: self.next_seq },
            ),
            next_seq: next_seq(self.next_seq),
            ..self
        }
    }

    /// `after` is the state after a character was drawn. A grid over its
    /// limit has lost its oldest quarter.
    pub open spec fn prints_to(self, ev: PrintEvent, after: EchoModel) -> bool {
        let printed = self.printed(ev);
        if printed.grid.dom().len() > GRID_CAP {
            is_pruned(printed.grid, after.grid) && after == (EchoModel {
                grid: after.grid,
                ..printed
            })
        } else {
            after == printed
        }
    }

    pub open spec fn erased(self, row: int, from: int, to: int) -> EchoModel {
        EchoModel { grid: without_cells(self.grid, row, from, to), ..self }
    }

    /// `after` is the state after a change of the screen.
    pub open spec fn screen_changes_to(self, ev: ScreenEvent, after: EchoModel) -> bool {
        match ev {
            ScreenEvent::Print(p) => self.prints_to(p, after),
            ScreenEvent::Erase(e) => after == self.erased(
                e.row as int,
                e.col_start as int,
                e.col_end as int,
            ),
        }
    }

    /// Where the anchor line is shown most recently on a screen of `cols`
    /// columns.
    pub open spec fn anchor(self, cols: u16) -> Option<CursorPos> {
        latest_shown(self.grid, anchor_line(self.buffer_text), cols as int)
    }
}

pub struct EchoMatcher {
    pending: VecDeque<(char, usize)>,
    positions: HashMap<usize, CursorPos>,
    lints: Vec<SpellIssue>,
    buffer_chars: usize,
    buffer_text: String,
    buffer_cursor: usize,
    grid: Grid,
    next_seq: u64,
    boundary_pending: bool,
}

impl View for EchoMatcher {
    type V = EchoModel;

    closed spec fn view(&self) -> EchoModel {
        EchoModel {
            pending: self.pending@,
            positions: self.positions@,
            lints: issues_view(self.lints@),
            buffer_chars: self.buffer_chars as int,
            buffer_text: self.buffer_text@,
            buffer_cursor: self.buffer_cursor as int,
            grid: self.grid@,
            next_seq: self.next_seq,
            boundary_pending: self.boundary_pending,
        }
    }
}

impl EchoMatcher {
    pub open spec fn wf(&self) -> bool {
        self@.wf()
    }

    pub fn new() -> (r: Self)
        ensures
            r@ == EchoModel::init(),
            r.wf(),
    {
        let r = EchoMatcher {
            pending: VecDeque::new(),
            positions: HashMap::new(),
            lints: Vec::new(),
            buffer_chars: 0,
            buffer_text: String::new(),
            buffer_cursor: 0,
            grid: Grid::new(),
            next_seq: 1,
            boundary_pending: false,
        };
        proof {
            assert(r@ =~= EchoModel::init());
        }
        r
    }

    pub fn buffer_chars(&self) -> (r: usize)
        ensures
            r == self@.buffer_chars,
    {
        self.buffer_chars
    }

    pub fn buffer_text(&self) -> (r: &str)
        ensures
            r@ == self@.buffer_text,
    {
        self.buffer_text.as_str()
    }

    /// Takes in what the user did. A boundary forgets the issues and the
    /// screen; echoes that still wait survive it, so that late ones are
    /// paired, until the next typed character.
    pub fn apply_input(&mut self, ev: InputEvent)
        ensures
            final(self)@ == old(self)@.after_input(ev@),
            old(self).wf() ==> final(self).wf(),
    {
        match ev {
            InputEvent::UserChar { ch, char_offset } => {
                if self.boundary_pending {
                    self.pending.clear();
                    self.positions.clear();
                    self.boundary_pending = false;
                }
                self.pending.push_back((ch, char_offset));
                proof {
                    assert(self@ =~= old(self)@.after_input(ev@));
                }
            },
            InputEvent::Boundary => {
                self.lints.clear();
                self.buffer_chars = 0;
                self.buffer_text = String::new();
                self.buffer_cursor = 0;
                self.grid.clear();
                self.boundary_pending = true;
                proof {
                    assert(self@ =~= old(self)@.after_input(ev@));
                }
            },
            InputEvent::Lints { issues, buffer_chars, buffer_text, buffer_cursor } => {
                self.lints = issues;
                self.buffer_chars = buffer_chars;
                self.buffer_text = buffer_text;
                self.buffer_cursor = buffer_cursor;
            },
            InputEvent::PickerState(_) => {},
        }
    }

    /// Takes in a change of the screen.
    pub fn apply_screen_event(&mut self, ev: &ScreenEvent)
        requires
            old(self).wf(),
        ensures
            old(self)@.screen_changes_to(*ev, final(self)@),
            final(self).wf(),
    {
        match ev {
            ScreenEvent::Print(p) => self.apply_print(p),
            ScreenEvent::Erase(e) => self.erase_cells(e.row, e.col_start, e.col_end),
        }
    }

    /// Takes in a drawn character: pairs it with the typed character that
    /// waits longest, if they are the same, and writes it to the grid.
    pub fn apply_print(&mut self, ev: &PrintEvent)
        requires
            old(self).wf(),
        ensures
            old(self)@.prints_to(*ev, final(self)@),
            final(self).wf(),
    {
        if self.pending.len() > 0 {
            let front = self.pending[0];
            if front.0 == ev.ch {
                self.positions.insert(front.1, ev.at);
                let _ = self.pending.pop_front();
                proof {
                    assert(self.pending@ =~= old(self)@.pending.skip(1));
                }
            }
        }
        self.grid.put(ev.at.row, ev.at.col, Cell { ch: ev.ch, seq: self.next_seq });
        self.next_seq = if self.next_seq == u64::MAX { 1 } else { self.next_seq + 1 };
        proof {
            assert(self@ =~= old(self)@.printed(*ev));
        }
        if self.grid.len() > GRID_CAP {
            self.grid.prune();
        }
    }

    /// Where the character at `char_offset` was echoed.
    pub fn position_of(&self, char_offset: usize) -> (r: Option<CursorPos>)
        ensures
            r == if self@.positions.contains_key(char_offset) {
                Some(self@.positions[char_offset])
            } else {
                None
            },
    {
        match self.positions.get(&char_offset) {
            Some(p) => Some(*p),
            None => None,
        }
    }

    pub fn lints(&self) -> (r: &[SpellIssue])
        ensures
            issues_view(r@) == self@.lints,
    {
        self.lints.as_slice()
    }

    /// Where the last line of the buffer that is not empty is shown most
    /// recently: the position of its first character. None where all lines
    /// are empty or the screen does not show the line.
    pub fn find_input_anchor(&self, cols: u16) -> (r: Option<CursorPos>)
        ensures
            r == self@.anchor(cols),
    {
        let chars = chars_of(self.buffer_text.as_str());
        let end: usize = content_len(chars.as_slice());
        proof {
            crate::text::last_line_start_props(chars@.take(end as int));
        }
        let start: usize = last_line_offset(vstd::slice::slice_subrange(chars.as_slice(), 0, end));
        proof {
            assert(chars@.subrange(0, end as int) =~= chars@.take(end as int));
        }
        self.grid.find_text(vstd::slice::slice_subrange(chars.as_slice(), start, end), cols)
    }

    /// Where any text is shown most recently.
    pub fn find_text_anchor(&self, text: &str, cols: u16) -> (r: Option<CursorPos>)
        ensures
            r == latest_shown(self@.grid, text@, cols as int),
    {
        let chars = chars_of(text);
        self.grid.find_text(chars.as_slice(), cols)
    }

    /// Like `find_text_anchor`, for a text that is at hand as characters.
    pub fn find_chars_anchor(&self, text: &[char], cols: u16) -> (r: Option<CursorPos>)
        ensures
            r == latest_shown(self@.grid, text@, cols as int),
    {
        self.grid.find_text(text, cols)
    }

    /// Offset in the buffer where the anchor line starts.
    pub fn anchor_line_char_offset(&self) -> (r: usize)
        ensures
            r == anchor_start(self@.buffer_text),
    {
        let chars = chars_of(self.buffer_text.as_str());
        let end: usize = content_len(chars.as_slice());
        proof {
            assert(chars@.subrange(0, end as int) =~= chars@.take(end as int));
        }
        last_line_offset(vstd::slice::slice_subrange(chars.as_slice(), 0, end))
    }

    /// Another name for `anchor_line_char_offset`.
    pub fn last_line_char_offset(&self) -> (r: usize)
        ensures
            r == anchor_start(self@.buffer_text),
    {
        self.anchor_line_char_offset()
    }

    /// The latest character of a cell; none where nothing was drawn or the
    /// cell was erased since.
    pub fn cell_at(&self, row: u16, col: u16) -> (r: Option<char>)
        ensures
            r == glyph(self@.grid, row as int, col as int),
    {
        match self.grid.get(row, col) {
            Some(c) => Some(c.ch),
            None => None,
        }
    }

    /// Whether a cell can be showing `ch`; see `Grid::find_text`.
    pub fn fits_cell(&self, row: u16, col: u16, ch: char) -> (r: bool)
        ensures
            r == crate::grid::fits(self@.grid, row as int, col as int, ch),
    {
        self.grid.fits_cell(row, col, ch)
    }

    pub fn reset(&mut self)
        ensures
            final(self)@ == EchoModel::init(),
            final(self).wf(),
    {
        *self = EchoMatcher::new();
    }

    pub fn buffer_cursor(&self) -> (r: usize)
        ensures
            r == self@.buffer_cursor,
    {
        self.buffer_cursor
    }

    /// Index of the issue under the cursor. Of several, the rightmost: the
    /// one closest to where the user is typing.
    pub fn lint_at_cursor(&self, grammar_enabled: bool) -> (r: Option<usize>)
        ensures
            match r {
                Some(i) => hovered(self@.lints, self@.buffer_cursor, grammar_enabled) == Some(
                    i as int,
                ) && is_hovered(self@.lints, self@.buffer_cursor, grammar_enabled, i as int),
                None => hovered(self@.lints, self@.buffer_cursor, grammar_enabled) is None,
            },
    {
        index_at_cursor(self.lints.as_slice(), self.buffer_cursor, grammar_enabled)
    }

    /// Forgets the screen, as after a resize, and keeps issues and buffer.
    pub fn clear_screen(&mut self)
        ensures
            final(self)@ == (EchoModel { grid: Map::empty(), next_seq: 1, ..old(self)@ }),
            final(self).wf(),
    {
        self.grid.clear();
        self.next_seq = 1;
    }

    /// Forgets the cells `col_start..col_end` of a row.
    pub fn erase_cells(&mut self, row: u16, col_start: u16, col_end: u16)
        requires
            old(self).wf(),
        ensures
            final(self)@ == old(self)@.erased(row as int, col_start as int, col_end as int),
            final(self).wf(),
    {
        let mut col: u16 = col_start;
        proof {
            assert(self@ =~= old(self)@.erased(row as int, col_start as int, col_start as int));
        }
        while col < col_end
            invariant
                col_start <= col_end ==> col_start <= col <= col_end,
                col_start > col_end ==> col == col_start,
                self.wf(),
                self@ == old(self)@.erased(row as int, col_start as int, col as int),
            decreases col_end - col,
        {
            self.grid.remove(row, col);
            col += 1;
            proof {
                assert(self@ =~= old(self)@.erased(row as int, col_start as int, col as int));
            }
        }
        proof {
            assert(self@ =~= old(self)@.erased(row as int, col_start as int, col_end as int));
        }
    }

    pub fn pending_len(&self) -> (r: usize)
        ensures
            r == self@.pending.len(),
    {
        self.pending.len()
    }

    pub fn known_positions(&self) -> (r: usize)
        ensures
            r == self@.positions.dom().len(),
    {
        self.positions.len()
    }

    pub fn grid_len(&self) -> (r: usize)
        ensures
            r == self@.grid.dom().len(),
    {
        self.grid.len()
    }
}

/// Index of the issue under a cursor.
pub fn index_at_cursor(lints: &[SpellIssue], cursor: usize, grammar_enabled: bool) -> (r: Option<
    usize,
>)
    ensures
        match r {
            Some(i) => hovered(issues_view(lints@), cursor as int, grammar_enabled) == Some(
                i as int,
            ) && is_hovered(issues_view(lints@), cursor as int, grammar_enabled, i as int),
            None => hovered(issues_view(lints@), cursor as int, grammar_enabled) is None,
        },
{
    let ghost all = issues_view(lints@);
    let mut best: Option<usize> = None;
    let mut i: usize = 0;
    while i < lints.len()
        invariant
            i <= lints@.len(),
            all == issues_view(lints@),
            match best {
                Some(b) => b < i && is_on(all[b as int], cursor as int, grammar_enabled)
                    && forall|j: int|
                    0 <= j < i && is_on(#[trigger] all[j], cursor as int, grammar_enabled)
                        ==> all[j].char_start < all[b as int].char_start || (all[j].char_start
                        == all[b as int].char_start && b <= j),
                None => forall|j: int|
                    0 <= j < i ==> !is_on(#[trigger] all[j], cursor as int, grammar_enabled),
            },
        decreases lints@.len() - i,
    {
        let lint = &lints[i];
        assert(lint@ == all[i as int]);
        if is_actionable_category(lint.category, grammar_enabled) && lint.char_start <= cursor
            && cursor <= lint.char_end {
            match best {
                Some(b) => {
                    assert(lints@[b as int]@ == all[b as int]);
                    if lints[b].char_start < lint.char_start {
                        best = Some(i);
                    }
                },
                None => {
                    best = Some(i);
                },
            }
        }
        i += 1;
    }
    proof {
        if let Some(b) = best {
            assert(is_hovered(all, cursor as int, grammar_enabled, b as int));
            let c = choose|c: int| is_hovered(all, cursor as int, grammar_enabled, c);
            assert(is_on(all[c], cursor as int, grammar_enabled));
            assert(is_on(all[b as int], cursor as int, grammar_enabled));
            assert(c == b as int);
        }
    }
    best
}

/// Where `chars` ends when the line feeds at its end are left out.
fn content_len(chars: &[char]) -> (r: usize)
    ensures
        r == content_end(chars@),
        r <= chars@.len(),
{
    let mut end: usize = chars.len();
    proof {
        assert(chars@.take(end as int) =~= chars@);
    }
    while end > 0 && chars[end - 1] == '\n'
        invariant
            end <= chars@.len(),
            content_end(chars@) == content_end(chars@.take(end as int)),
        decreases end,
    {
        proof {
            assert(chars@.take(end as int).drop_last() =~= chars@.take(end - 1));
        }
        end -= 1;
    }
    end
}

impl Default for EchoMatcher {
    fn default() -> (r: Self)
        ensures
            r@ == EchoModel::init(),
            r.wf(),
    {
        EchoMatcher::new()
    }
}

/// Whether every cell was written before the next one will be.
pub open spec fn writes_in_order(m: EchoModel) -> bool {
    forall|k: u32| #[trigger] m.grid.contains_key(k) ==> m.grid[k].seq < m.next_seq
}

/// What is drawn is what the grid shows, even where the grid has to make
/// room; and writes stay in order until the counter starts over.
pub proof fn printed_cell_is_shown(before: EchoModel, ev: PrintEvent, after: EchoModel)
    requires
        before.wf(),
        writes_in_order(before),
        before.prints_to(ev, after),
    ensures
        glyph(after.grid, ev.at.row as int, ev.at.col as int) == Some(ev.ch),
        before.next_seq < u64::MAX ==> writes_in_order(after),
{
    let full = before.printed(ev).grid;
    let key = cell_key(ev.at.row as int, ev.at.col as int);
    assert(full.contains_key(key));
    if full.dom().len() > GRID_CAP {
        if !after.grid.contains_key(key) {
            assert(after.grid.dom().len() > 0);
            let kept = after.grid.dom().choose();
            assert(after.grid.contains_key(kept));
            assert(full[key].seq <= full[kept].seq);
            assert(before.grid.contains_key(kept));
        }
    }
    assert forall|k: u32| #[trigger] after.grid.contains_key(k) implies full.contains_key(k)
        && after.grid[k] == full[k] by {}
    if before.next_seq < u64::MAX {
        assert forall|k: u32| #[trigger]
            after.grid.contains_key(k) implies after.grid[k].seq < after.next_seq by {
            if k != key {
                assert(before.grid.contains_key(k));
            }
        }
    }
}

/// A call that changes what an `EchoMatcher` holds.
pub enum EchoCall {
    Input(InputEventView),
    Screen(ScreenEvent),
    ClearScreen,
    Reset,
}

/// `after` is the state after a call.
pub open spec fn call_leads(before: EchoModel, call: EchoCall, after: EchoModel) -> bool {
    match call {
        EchoCall::Input(ev) => after == before.after_input(ev),
        EchoCall::Screen(ev) => before.screen_changes_to(ev, after),
        EchoCall::ClearScreen => after == (EchoModel { grid: Map::empty(), next_seq: 1, ..before }),
        EchoCall::Reset => after == EchoModel::init(),
    }
}

/// Whether calls lead from a new `EchoMatcher` through these states.
pub open spec fn is_history(calls: Seq<EchoCall>, states: Seq<EchoModel>) -> bool {
    &&& states.len() == calls.len() + 1
    &&& states[0] == EchoModel::init()
    &&& forall|k: int|
        0 <= k < calls.len() ==> call_leads(states[k], #[trigger] calls[k], states[k + 1])
}

proof fn without_cells_shrinks(grid: Map<u32, Cell>, row: int, from: int, to: int)
    requires
        grid.dom().finite(),
    ensures
        without_cells(grid, row, from, to).dom().finite(),
        without_cells(grid, row, from, to).dom().len() <= grid.dom().len(),
        forall|k: u32| #[trigger]
            without_cells(grid, row, from, to).contains_key(k) ==> grid.contains_key(k)
                && without_cells(grid, row, from, to)[k] == grid[k],
    decreases to - from,
{
    if from < to {
        without_cells_shrinks(grid, row, from, to - 1);
        let before = without_cells(grid, row, from, to - 1);
        let key = cell_key(row, to - 1);
        assert(before.remove(key).dom() =~= before.dom().remove(key));
    }
}

/// Every call keeps the grid within its limit and the writes in order, until
/// the counter starts over.
pub proof fn calls_keep_order(before: EchoModel, call: EchoCall, after: EchoModel)
    requires
        before.wf(),
        writes_in_order(before),
        1 <= before.next_seq < u64::MAX,
        call_leads(before, call, after),
    ensures
        after.wf(),
        writes_in_order(after),
        1 <= after.next_seq <= before.next_seq + 1,
{
    match call {
        EchoCall::Screen(ScreenEvent::Print(p)) => {
            printed_cell_is_shown(before, p, after);
            let key = cell_key(p.at.row as int, p.at.col as int);
            let full = before.printed(p).grid;
            assert(full.dom() =~= before.grid.dom().insert(key));
        },
        EchoCall::Screen(ScreenEvent::Erase(e)) => {
            without_cells_shrinks(
                before.grid,
                e.row as int,
                e.col_start as int,
                e.col_end as int,
            );
        },
        _ => {},
    }
}

/// Writes are in order at any time, whatever came before: for every history of
/// fewer calls than the counter can count.
pub proof fn writes_stay_in_order(calls: Seq<EchoCall>, states: Seq<EchoModel>)
    requires
        is_history(calls, states),
        calls.len() < u64::MAX,
    ensures
        states.last().wf(),
        writes_in_order(states.last()),
        1 <= states.last().next_seq <= calls.len() + 1,
    decreases calls.len(),
{
    if calls.len() > 0 {
        let n = calls.len() - 1;
        let init = calls.drop_last();
        let early = states.drop_last();
        assert forall|k: int| 0 <= k < init.len() implies call_leads(
            early[k],
            #[trigger] init[k],
            early[k + 1],
        ) by {
            assert(init[k] == calls[k]);
        }
        writes_stay_in_order(init, early);
        assert(early.last() == states[n]);
        assert(call_leads(states[n], calls[n], states[n + 1]));
        calls_keep_order(states[n], calls[n], states[n + 1]);
    }
}

/// A character that the child draws is what the grid shows there, whatever
/// came before.
pub proof fn drawn_character_is_shown(
    calls: Seq<EchoCall>,
    states: Seq<EchoModel>,
    ev: PrintEvent,
    after: EchoModel,
)
    requires
        is_history(calls, states),
        calls.len() < u64::MAX,
        states.last().prints_to(ev, after),
    ensures
        glyph(after.grid, ev.at.row as int, ev.at.col as int) == Some(ev.ch),
{
    writes_stay_in_order(calls, states);
    printed_cell_is_shown(states.last(), ev, after);
}

/// Drawing a character touches no other cell while the grid has room.
pub proof fn print_keeps_other_cells(before: EchoModel, ev: PrintEvent, row: int, col: int)
    requires
        0 <= row < 0x10000,
        0 <= col < 0x10000,
        row != ev.at.row || col != ev.at.col,
    ensures
        glyph(before.printed(ev).grid, row, col) == glyph(before.grid, row, col),
{
    crate::grid::cell_key_injective(row, col, ev.at.row as int, ev.at.col as int);
}

/// An erase blanks exactly its own cells.
pub proof fn erase_blanks_cells(grid: Map<u32, Cell>, row: int, from: int, to: int, r: int, c: int)
    requires
        0 <= row < 0x10000,
        0 <= from,
        to <= 0x10000,
        0 <= r < 0x10000,
        0 <= c < 0x10000,
    ensures
        glyph(without_cells(grid, row, from, to), r, c) == if r == row && from <= c < to {
            None
        } else {
            glyph(grid, r, c)
        },
    decreases to - from,
{
    if from < to {
        erase_blanks_cells(grid, row, from, to - 1, r, c);
        crate::grid::cell_key_injective(row, to - 1, r, c);
    }
}

/// A boundary leaves no issue, no buffer and nothing on the screen, so there
/// is nothing to anchor to; what waits for its echo stays.
pub proof fn boundary_forgets_screen(m: EchoModel, cols: u16)
    ensures
        ({
            let after = m.after_input(InputEventView::Boundary);
            &&& after.lints.len() == 0
            &&& after.buffer_text.len() == 0
            &&& after.grid == Map::<u32, Cell>::empty()
            &&& after.anchor(cols) is None
            &&& after.pending == m.pending
            &&& after.positions == m.positions
        }),
{
}

/// The first typed character after a boundary starts a new session: only it
/// waits for its echo.
pub proof fn typing_after_boundary_starts_over(m: EchoModel, ch: char, char_offset: usize)
    ensures
        ({
            let after = m.after_input(InputEventView::Boundary).after_input(
                InputEventView::UserChar { ch, char_offset: char_offset as int },
            );
            &&& after.pending == seq![(ch, char_offset)]
            &&& after.positions == Map::<usize, CursorPos>::empty()
            &&& !after.boundary_pending
        }),
{
    assert(Seq::<(char, usize)>::empty().push((ch, char_offset)) =~= seq![(ch, char_offset)]);
}

/// The anchor line is one line of the buffer: it holds no line feed, only line
/// feeds follow it, and it is empty only where all lines are.
pub proof fn anchor_line_props(text: Seq<char>)
    ensures
        0 <= anchor_start(text) <= content_end(text) <= text.len(),
        anchor_start(text) == 0 || text[anchor_start(text) - 1] == '\n',
        forall|i: int| anchor_start(text) <= i < content_end(text) ==> text[i] != '\n',
        forall|i: int| content_end(text) <= i < text.len() ==> text[i] == '\n',
        anchor_line(text).len() == 0 ==> content_end(text) == 0,
    decreases text.len(),
{
    content_end_props(text);
    let t = text.take(content_end(text));
    crate::text::last_line_start_props(t);
    let k = anchor_start(text);
    if k > 0 {
        assert(t[k - 1] == text[k - 1]);
    }
    assert forall|i: int| k <= i < content_end(text) implies text[i] != '\n' by {
        assert(t[i] == text[i]);
    }
}

proof fn content_end_props(text: Seq<char>)
    ensures
        0 <= content_end(text) <= text.len(),
        content_end(text) == 0 || text[content_end(text) - 1] != '\n',
        forall|i: int| content_end(text) <= i < text.len() ==> text[i] == '\n',
    decreases text.len(),
{
    if text.len() > 0 && text.last() == '\n' {
        content_end_props(text.drop_last());
        let e = content_end(text);
        if e > 0 {
            assert(text.drop_last()[e - 1] == text[e - 1]);
        }
        assert forall|i: int| e <= i < text.len() implies text[i] == '\n' by {
            if i < text.len() - 1 {
                assert(text.drop_last()[i] == text[i]);
            }
        }
    }
}

/// A typed character that is echoed is paired with its echo: the first echo of
/// the character that waits longest tells where it stands.
pub proof fn echo_is_paired(before: EchoModel, ev: PrintEvent, after: EchoModel)
    requires
        before.prints_to(ev, after),
    ensures
        before.pending.len() > 0 && before.pending[0].0 == ev.ch ==> {
            &&& after.positions.contains_key(before.pending[0].1)
            &&& after.positions[before.pending[0].1] == ev.at
            &&& after.pending.len() == before.pending.len() - 1
            &&& forall|i: int|
                0 <= i < after.pending.len() ==> after.pending[i] == before.pending[i + 1]
        },
        before.pending.len() == 0 || before.pending[0].0 != ev.ch ==> after.pending
            == before.pending && after.positions == before.positions,
        forall|o: usize|
            before.positions.contains_key(o) && (before.pending.len() == 0 || o
                != before.pending[0].1) ==> #[trigger] after.positions.contains_key(o)
                && after.positions[o] == before.positions[o],
        after.lints == before.lints,
        after.buffer_text == before.buffer_text,
{
}

/// Typed characters wait in the order in which they were typed.
pub proof fn typed_characters_wait_in_order(m: EchoModel, ch: char, char_offset: usize)
    requires
        !m.boundary_pending,
    ensures
        ({
            let after = m.after_input(
                InputEventView::UserChar { ch, char_offset: char_offset as int },
            );
            &&& after.pending.len() == m.pending.len() + 1
            &&& after.pending.last() == (ch, char_offset)
            &&& forall|i: int| 0 <= i < m.pending.len() ==> after.pending[i] == m.pending[i]
            &&& after.positions == m.positions
            &&& after.grid == m.grid
            &&& after.lints == m.lints
        }),
{
}

/// A report of issues replaces issues and buffer and leaves the screen alone;
/// a report of the picker changes nothing.
pub proof fn reports_are_taken_in(
    m: EchoModel,
    issues: Seq<IssueView>,
    text: Seq<char>,
    cursor: int,
    snap: Option<crate::event::SnapshotView>,
)
    ensures
        ({
            let after = m.after_input(
                InputEventView::Lints {
                    issues,
                    buffer_chars: text.len() as int,
                    buffer_text: text,
                    buffer_cursor: cursor,
                },
            );
            &&& after.lints == issues
            &&& after.buffer_text == text
            &&& after.buffer_chars == text.len()
            &&& after.buffer_cursor == cursor
            &&& after.grid == m.grid
            &&& after.pending == m.pending
            &&& after.positions == m.positions
            &&& m.after_input(InputEventView::PickerState(snap)) == m
        }),
{
}

/// The buffer is found on the screen: where its last line that is not empty
/// stands in a row, there is an anchor, and at the anchor the screen shows
/// that line.
pub proof fn standing_line_is_an_anchor(m: EchoModel, cols: u16, row: int, col: int)
    requires
        m.grid.dom().finite(),
        anchor_line(m.buffer_text).len() > 0,
        crate::grid::stands_at(m.grid, cols as int, anchor_line(m.buffer_text), row, col),
        glyph(m.grid, row, col) is Some,
    ensures
        m.anchor(cols) matches Some(at) && crate::grid::shown_at(
            m.grid,
            cols as int,
            anchor_line(m.buffer_text),
            at.row as int,
            at.col as int,
        ) is Some,
{
    let line = anchor_line(m.buffer_text);
    crate::grid::standing_text_is_found(m.grid, cols as int, line, row, col);
    crate::grid::shown_text_is_found(m.grid, cols as int, line, row, col);
}

/// Where a text has no line feed, the anchor line is the whole text.
pub proof fn one_line_is_its_anchor_line(text: Seq<char>)
    requires
        forall|i: int| 0 <= i < text.len() ==> text[i] != '\n',
    ensures
        anchor_line(text) == text,
        anchor_start(text) == 0,
{
    anchor_line_props(text);
    if content_end(text) < text.len() {
        assert(text[content_end(text)] == '\n');
    }
    if anchor_start(text) > 0 {
        assert(text[anchor_start(text) - 1] == '\n');
    }
    assert(anchor_line(text) =~= text);
}

/// Whether the cursor touches an issue that is shown.
pub open spec fn touches(issue: IssueView, cursor: int, grammar: bool) -> bool {
    &&& issue.category == IssueCategory::Spelling || (issue.category == IssueCategory::Grammar
        && grammar)
    &&& issue.char_start <= cursor <= issue.char_end
}

/// The issue under the cursor: there is one exactly where the cursor touches
/// one that is shown, and of several it is one that starts last.
pub proof fn touched_issue_is_under_the_cursor(
    lints: Seq<IssueView>,
    cursor: int,
    grammar: bool,
    i: int,
)
    requires
        0 <= i < lints.len(),
        touches(lints[i], cursor, grammar),
    ensures
        hovered(lints, cursor, grammar) matches Some(k) && 0 <= k < lints.len() && touches(
            lints[k],
            cursor,
            grammar,
        ) && lints[i].char_start <= lints[k].char_start,
{
    hovered_exists(lints, cursor, grammar, lints.len() as int, i);
    assert(lints.take(lints.len() as int) =~= lints);
    let k = choose|k: int| is_hovered(lints, cursor, grammar, k);
    assert(is_hovered(lints, cursor, grammar, k));
    assert(is_on(lints[i], cursor, grammar));
}

proof fn hovered_exists(lints: Seq<IssueView>, cursor: int, grammar: bool, n: int, i: int)
    requires
        0 <= i < n <= lints.len(),
        is_on(lints[i], cursor, grammar),
    ensures
        exists|k: int| #[trigger] is_hovered(lints.take(n), cursor, grammar, k),
    decreases n,
{
    let all = lints.take(n);
    let last = n - 1;
    if exists|j: int| 0 <= j < last && is_on(#[trigger] lints[j], cursor, grammar) {
        let j = choose|j: int| 0 <= j < last && is_on(#[trigger] lints[j], cursor, grammar);
        hovered_exists(lints, cursor, grammar, last, j);
        let part = lints.take(last);
        let c = choose|k: int| #[trigger] is_hovered(part, cursor, grammar, k);
        let d = if is_on(lints[last], cursor, grammar) && part[c].char_start
            < lints[last].char_start {
            last
        } else {
            c
        };
        assert forall|x: int|
            0 <= x < all.len() && is_on(#[trigger] all[x], cursor, grammar) implies all[x].char_start
            < all[d].char_start || (all[x].char_start == all[d].char_start && d <= x) by {
            if x < last {
                assert(is_on(part[x], cursor, grammar));
            }
        }
        assert(is_hovered(all, cursor, grammar, d));
    } else {
        if i < last {
            assert(is_on(lints[i], cursor, grammar));
        }
        assert(is_hovered(all, cursor, grammar, last));
    }
}

/// Without a touched issue there is none under the cursor.
pub proof fn nothing_else_is_under_the_cursor(lints: Seq<IssueView>, cursor: int, grammar: bool)
    requires
        forall|i: int| 0 <= i < lints.len() ==> !touches(#[trigger] lints[i], cursor, grammar),
    ensures
        hovered(lints, cursor, grammar) is None,
{
    assert forall|i: int| !is_hovered(lints, cursor, grammar, i) by {
        if 0 <= i < lints.len() {
            assert(!touches(lints[i], cursor, grammar));
        }
    }
}

/// A fresh tracker knows nothing.
pub proof fn tracker_starts_empty()
    ensures
        ({
            let m = EchoModel::init();
            &&& m.pending.len() == 0
            &&& m.positions == Map::<usize, CursorPos>::empty()
            &&& m.grid == Map::<u32, Cell>::empty()
            &&& m.lints.len() == 0
            &&& m.buffer_text.len() == 0
            &&& !m.boundary_pending
            &&& m.wf()
        }),
{
}

/// While fewer than 16384 cells are known, a drawn character changes its own
/// cell and no other.
pub proof fn known_cells_stay(
    before: EchoModel,
    ev: PrintEvent,
    after: EchoModel,
    row: int,
    col: int,
)
    requires
        before.grid.dom().finite(),
        before.grid.dom().len() < 16384,
        before.prints_to(ev, after),
        0 <= row < 0x10000,
        0 <= col < 0x10000,
        row != ev.at.row || col != ev.at.col,
    ensures
        glyph(after.grid, row, col) == glyph(before.grid, row, col),
{
    let key = cell_key(ev.at.row as int, ev.at.col as int);
    assert(before.printed(ev).grid.dom() =~= before.grid.dom().insert(key));
    print_keeps_other_cells(before, ev, row, col);
}

/// Where the grid has to make room, a quarter of it goes, and no cell that
/// goes was written after one that stays.
pub proof fn oldest_cells_go_first(
    before: EchoModel,
    ev: PrintEvent,
    after: EchoModel,
    gone: u32,
    kept: u32,
)
    requires
        before.prints_to(ev, after),
        before.printed(ev).grid.contains_key(gone),
        !after.grid.contains_key(gone),
        after.grid.contains_key(kept),
    ensures
        before.printed(ev).grid.dom().len() > 16384,
        before.printed(ev).grid[gone].seq <= after.grid[kept].seq,
        4 * (before.printed(ev).grid.dom().len() - after.grid.dom().len())
            <= before.printed(ev).grid.dom().len(),
{
    let full = before.printed(ev).grid;
    assert(full.contains_key(kept));
}

} // verus!
