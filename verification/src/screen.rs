//! Passive screen-state observer.
//!
//! Sits on the output stream of the child and tracks where the child draws:
//! cursor position, alternate screen and saved cursor. It never changes the
//! output. The byte stream is parsed by `vte`; what each parsed action means
//! for the screen is decided here.

use crate::event::{EraseEvent, PrintEvent, ScreenEvent};
use vstd::prelude::*;

verus! {

#[derive(Debug, Clone, Copy, PartialEq, Eq, Structural)]
pub struct CursorPos {
    pub row: u16,
    pub col: u16,
}

#[derive(Debug)]
pub struct ScreenState {
    pub cursor: CursorPos,
    pub saved_cursor: Option<CursorPos>,
    pub cols: u16,
    pub rows: u16,
    pub alt_screen: bool,
    /// xterm's deferred wrap. A print in the last column leaves the cursor
    /// there and sets this flag; the next print wraps before it places its
    /// character. Any explicit cursor move clears the flag.
    pub pending_wrap: bool,
    /// Moves on with every change of the state.
    pub version: u64,
}

impl Clone for ScreenState {
    fn clone(&self) -> (r: Self)
        ensures
            r == *self,
    {
        ScreenState {
            cursor: self.cursor,
            saved_cursor: self.saved_cursor,
            cols: self.cols,
            rows: self.rows,
            alt_screen: self.alt_screen,
            pending_wrap: self.pending_wrap,
            version: self.version,
        }
    }
}

/// One action of the terminal protocol, as the parser reports it.
#[derive(Debug)]
pub enum TermAction {
    /// A printable character.
    Print(char),
    /// A control character.
    Execute(u8),
    /// A complete CSI sequence: its parameters, each with its subparameters,
    /// the intermediate bytes and the final character.
    Csi { params: Vec<Vec<u16>>, intermediates: Vec<u8>, action: char },
    /// The final byte of an escape sequence that is no CSI.
    Esc(u8),
}

/// What a `TermAction` holds.
pub enum TermActionView {
    Print(char),
    Execute(u8),
    Csi { params: Seq<Seq<u16>>, intermediates: Seq<u8>, action: char },
    Esc(u8),
}

impl View for TermAction {
    type V = TermActionView;

    open spec fn view(&self) -> TermActionView {
        match *self {
            TermAction::Print(c) => TermActionView::Print(c),
            TermAction::Execute(b) => TermActionView::Execute(b),
            TermAction::Csi { params, intermediates, action } => TermActionView::Csi {
                params: params@.map_values(|g: Vec<u16>| g@),
                intermediates: intermediates@,
                action,
            },
            TermAction::Esc(b) => TermActionView::Esc(b),
        }
    }
}

/// What a sequence of actions holds.
pub open spec fn actions_view(actions: Seq<TermAction>) -> Seq<TermActionView> {
    actions.map_values(|a: TermAction| a@)
}

/// Collects what the parser reports.
struct Recorder {
    actions: Vec<TermAction>,
}

impl Recorder {
    /// What has been reported so far.
    pub closed spec fn recorded(&self) -> Seq<TermActionView> {
        actions_view(self.actions@)
    }

    fn record_print(&mut self, c: char)
        ensures
            final(self).recorded() == old(self).recorded().push(
                TermActionView::Print(c),
            ),
    {
        self.actions.push(TermAction::Print(c));
        proof {
            assert(actions_view(self.actions@) =~= actions_view(old(self).actions@).push(
                TermActionView::Print(c),
            ));
        }
    }

    fn record_execute(&mut self, byte: u8)
        ensures
            final(self).recorded() == old(self).recorded().push(
                TermActionView::Execute(byte),
            ),
    {
        self.actions.push(TermAction::Execute(byte));
        proof {
            assert(actions_view(self.actions@) =~= actions_view(old(self).actions@).push(
                TermActionView::Execute(byte),
            ));
        }
    }

    fn record_csi(&mut self, params: &vte::Params, intermediates: &[u8], action: char)
        ensures
            final(self).recorded() == old(self).recorded().push(
                TermActionView::Csi {
                    params: params_held(*params),
                    intermediates: intermediates@,
                    action,
                },
            ),
    {
        let groups = param_groups(params);
        let held = vstd::slice::slice_to_vec(intermediates);
        let recorded = TermAction::Csi { params: groups, intermediates: held, action };
        self.actions.push(recorded);
        proof {
            assert(actions_view(self.actions@) =~= actions_view(old(self).actions@).push(
                recorded@,
            ));
        }
    }

    fn record_esc(&mut self, byte: u8)
        ensures
            final(self).recorded() == old(self).recorded().push(
                TermActionView::Esc(byte),
            ),
    {
        self.actions.push(TermAction::Esc(byte));
        proof {
            assert(actions_view(self.actions@) =~= actions_view(old(self).actions@).push(
                TermActionView::Esc(byte),
            ));
        }
    }
}

impl vte::Perform for Recorder {
    fn print(&mut self, c: char)
        ensures
            final(self).recorded() == old(self).recorded().push(
                TermActionView::Print(c),
            ),
    {
        self.record_print(c);
    }

    fn execute(&mut self, byte: u8)
        ensures
            final(self).recorded() == old(self).recorded().push(
                TermActionView::Execute(byte),
            ),
    {
        self.record_execute(byte);
    }

    fn csi_dispatch(
        &mut self,
        params: &vte::Params,
        intermediates: &[u8],
        _ignore: bool,
        action: char,
    )
        ensures
            final(self).recorded() == old(self).recorded().push(
                TermActionView::Csi {
                    params: params_held(*params),
                    intermediates: intermediates@,
                    action,
                },
            ),
    {
        self.record_csi(params, intermediates, action);
    }

    fn esc_dispatch(&mut self, _intermediates: &[u8], _ignore: bool, byte: u8)
        ensures
            final(self).recorded() == old(self).recorded().push(
                TermActionView::Esc(byte),
            ),
    {
        self.record_esc(byte);
    }
}

/// `vte`'s parser, opaque here.
#[verifier::external_type_specification]
#[verifier::external_body]
pub struct ExParser<const OSC_RAW_BUF_SIZE: usize>(vte::Parser<OSC_RAW_BUF_SIZE>);

/// `vte`'s parameter list, opaque here.
#[verifier::external_type_specification]
#[verifier::external_body]
pub struct ExParams(vte::Params);

/// The chunks of bytes that a parser has been given since it was made.
pub uninterp spec fn parser_fed(parser: vte::Parser) -> Seq<Seq<u8>>;

/// The actions that `vte` reports for a chunk when it has been given the
/// chunks `before` already.
pub uninterp spec fn parsed_actions(before: Seq<Seq<u8>>, bytes: Seq<u8>) -> Seq<TermActionView>;

/// The parameters in a list, each with its subparameters.
pub uninterp spec fn params_held(params: vte::Params) -> Seq<Seq<u16>>;

/// `vte::Params::iter` yields the parameters that the list holds in order,
/// each as the slice of its subparameters; they are copied out.
#[verifier::external_body]
fn param_groups(params: &vte::Params) -> (r: Vec<Vec<u16>>)
    ensures
        r@.map_values(|g: Vec<u16>| g@) == params_held(*params),
{
    params.iter().map(|group| group.to_vec()).collect()
}

/// `vte::Parser::new` gives a parser that has been given nothing.
#[verifier::external_body]
fn new_parser() -> (r: vte::Parser)
    ensures
        parser_fed(r) == Seq::<Seq<u8>>::empty(),
{
    vte::Parser::new()
}

/// `vte::Parser::advance` reports the actions of `bytes` through the
/// recorder. Which actions come depends only on `bytes` and on the chunks that
/// the parser was given before, with their borders: where a border cuts a
/// character, what is reported may differ from that for the joined bytes. The
/// actions are named, not spelled out.
#[verifier::external_body]
fn advance(parser: &mut vte::Parser, bytes: &[u8]) -> (r: Vec<TermAction>)
    ensures
        parser_fed(*final(parser)) == parser_fed(*old(parser)).push(bytes@),
        actions_view(r@) == parsed_actions(parser_fed(*old(parser)), bytes@),
{
    let mut recorder = Recorder { actions: Vec::new() };
    parser.advance(&mut recorder, bytes);
    recorder.actions
}

/// The first subparameter of the parameter at `index`, where there is one.
pub open spec fn param_at(params: Seq<Seq<u16>>, index: int) -> Option<u16> {
    if 0 <= index < params.len() && params[index].len() > 0 {
        Some(params[index][0])
    } else {
        None
    }
}

/// The parameter at `index`, with `default` in place of a missing one and of
/// zero.
pub open spec fn count_at(params: Seq<Seq<u16>>, index: int, default: u16) -> u16 {
    match param_at(params, index) {
        Some(n) => if n > 0 {
            n
        } else {
            default
        },
        None => default,
    }
}

/// Whether one of the parameters names an alternate-screen mode.
pub open spec fn names_alt_screen(params: Seq<Seq<u16>>) -> bool {
    exists|i: int|
        #![trigger param_at(params, i)]
        param_at(params, i) == Some(47u16) || param_at(params, i) == Some(1047u16) || param_at(
            params,
            i,
        ) == Some(1049u16)
}

/// `a`, but no more than `b`.
pub open spec fn at_most(a: int, b: int) -> int {
    if a < b {
        a
    } else {
        b
    }
}

/// `a`, but no less than zero.
pub open spec fn at_least_zero(a: int) -> int {
    if a < 0 {
        0
    } else {
        a
    }
}

/// The erase of `col_start..col_end` in `row`; nothing for an empty range.
pub open spec fn erased(row: int, col_start: int, col_end: int) -> Seq<ScreenEvent> {
    if col_end <= col_start {
        Seq::empty()
    } else {
        seq![
            ScreenEvent::Erase(
                EraseEvent {
                    row: row as u16,
                    col_start: col_start as u16,
                    col_end: col_end as u16,
                },
            ),
        ]
    }
}

/// The erase of all of the rows `from..to`.
pub open spec fn erased_rows(from: int, to: int, cols: int) -> Seq<ScreenEvent> {
    if to <= from {
        Seq::empty()
    } else {
        Seq::new((to - from) as nat, |i: int| erased(from + i, 0, cols)[0])
    }
}

impl ScreenState {
    /// Sizes are not zero and positions leave room for the next cell.
    pub open spec fn wf(self) -> bool {
        &&& self.cols >= 1
        &&& self.rows >= 1
        &&& self.cursor.row < u16::MAX
        &&& self.cursor.col < u16::MAX
        &&& self.saved_cursor matches Some(c) ==> c.row < u16::MAX && c.col < u16::MAX
    }

    /// The cursor is on the screen, and a wrap is only pending in the last
    /// column.
    pub open spec fn cursor_on_screen(self) -> bool {
        &&& self.cursor.row < self.rows
        &&& self.cursor.col < self.cols
        &&& self.pending_wrap ==> self.cursor.col + 1 == self.cols
    }

    /// The cursor is on the screen, and so is the saved one.
    pub open spec fn on_screen(self) -> bool {
        &&& self.cursor_on_screen()
        &&& self.saved_cursor matches Some(c) ==> c.row < self.rows && c.col < self.cols
    }

    pub open spec fn last_row(self) -> int {
        self.rows - 1
    }

    pub open spec fn last_col(self) -> int {
        self.cols - 1
    }

    pub open spec fn bumped(self) -> ScreenState {
        ScreenState { version: crate::buffer::next_version(self.version), ..self }
    }

    /// An explicit cursor move.
    pub open spec fn moved(self, row: int, col: int) -> ScreenState {
        ScreenState {
            cursor: CursorPos { row: row as u16, col: col as u16 },
            pending_wrap: false,
            ..self
        }.bumped()
    }

    /// The cell where the next character is drawn: the cursor, or the start
    /// of the next row where a wrap is pending.
    pub open spec fn print_cell(self) -> CursorPos {
        if self.pending_wrap {
            CursorPos {
                row: if self.cursor.row + 1 < self.rows {
                    (self.cursor.row + 1) as u16
                } else {
                    self.cursor.row
                },
                col: 0,
            }
        } else {
            self.cursor
        }
    }

    /// The state after a character was drawn.
    pub open spec fn printed(self) -> ScreenState {
        let at = self.print_cell();
        if at.col < self.last_col() {
            ScreenState {
                cursor: CursorPos { row: at.row, col: (at.col + 1) as u16 },
                pending_wrap: false,
                ..self
            }.bumped()
        } else {
            ScreenState { cursor: at, pending_wrap: true, ..self }.bumped()
        }
    }

    /// The state after a control character.
    pub open spec fn executed(self, byte: u8) -> ScreenState {
        let row = self.cursor.row as int;
        let col = self.cursor.col as int;
        if byte == 0x08 {
            if col > 0 {
                self.moved(row, col - 1)
            } else {
                self
            }
        } else if byte == 0x09 {
            self.moved(row, at_most((col / 8 + 1) * 8, self.last_col()))
        } else if 0x0A <= byte <= 0x0C {
            if row + 1 < self.rows {
                self.moved(row + 1, col)
            } else if self.pending_wrap {
                self.moved(row, col)
            } else {
                self
            }
        } else if byte == 0x0D {
            if col != 0 || self.pending_wrap {
                self.moved(row, 0)
            } else {
                self
            }
        } else {
            self
        }
    }

    /// The state after the cursor position was saved.
    pub open spec fn saved(self) -> ScreenState {
        if self.saved_cursor == Some(self.cursor) {
            self
        } else {
            ScreenState { saved_cursor: Some(self.cursor), ..self }.bumped()
        }
    }

    /// The state after the saved position was taken up again.
    pub open spec fn restored(self) -> ScreenState {
        match self.saved_cursor {
            Some(c) => self.moved(c.row as int, c.col as int),
            None => self,
        }
    }

    /// The state after a CSI sequence.
    pub open spec fn after_csi(
        self,
        params: Seq<Seq<u16>>,
        intermediates: Seq<u8>,
        action: char,
    ) -> ScreenState {
        let p1 = count_at(params, 0, 1) as int;
        let p2 = count_at(params, 1, 1) as int;
        let row = self.cursor.row as int;
        let col = self.cursor.col as int;
        let question = intermediates.len() > 0 && intermediates[0] == 0x3F;
        if action == 'A' {
            self.moved(at_least_zero(row - p1), col)
        } else if action == 'B' {
            self.moved(at_most(row + p1, self.last_row()), col)
        } else if action == 'C' {
            self.moved(row, at_most(col + p1, self.last_col()))
        } else if action == 'D' {
            self.moved(row, at_least_zero(col - p1))
        } else if action == 'E' {
            self.moved(at_most(row + p1, self.last_row()), 0)
        } else if action == 'F' {
            self.moved(at_least_zero(row - p1), 0)
        } else if action == 'G' {
            self.moved(row, at_most(p1 - 1, self.last_col()))
        } else if action == 'd' {
            self.moved(at_most(p1 - 1, self.last_row()), col)
        } else if action == 'H' || action == 'f' {
            self.moved(at_most(p1 - 1, self.last_row()), at_most(p2 - 1, self.last_col()))
        } else if action == 's' && intermediates.len() == 0 {
            self.saved()
        } else if action == 'u' && intermediates.len() == 0 {
            self.restored()
        } else if action == 'h' && question && names_alt_screen(params) {
            ScreenState { alt_screen: true, ..self }.bumped()
        } else if action == 'l' && question && names_alt_screen(params) {
            ScreenState { alt_screen: false, ..self }.bumped()
        } else {
            self
        }
    }

    /// What an erase of the display clears: from the cursor on, up to and
    /// with the cursor, or everything.
    pub open spec fn display_erased(self, mode: u16) -> Seq<ScreenEvent> {
        let row = self.cursor.row as int;
        let col = self.cursor.col as int;
        let cols = self.cols as int;
        if mode == 0 {
            erased(row, col, cols) + erased_rows(row + 1, self.rows as int, cols)
        } else if mode == 1 {
            erased_rows(0, row, cols) + erased(row, 0, at_most(col + 1, cols))
        } else {
            erased_rows(0, self.rows as int, cols)
        }
    }

    /// What an erase of the line clears.
    pub open spec fn line_erased(self, mode: u16) -> Seq<ScreenEvent> {
        let row = self.cursor.row as int;
        let col = self.cursor.col as int;
        let cols = self.cols as int;
        if mode == 0 {
            erased(row, col, cols)
        } else if mode == 1 {
            erased(row, 0, at_most(col + 1, cols))
        } else {
            erased(row, 0, cols)
        }
    }

    /// The state after one action.
    pub open spec fn after(self, action: TermActionView) -> ScreenState {
        match action {
            TermActionView::Print(_) => self.printed(),
            TermActionView::Execute(b) => self.executed(b),
            TermActionView::Csi { params, intermediates, action } => self.after_csi(
                params,
                intermediates,
                action,
            ),
            TermActionView::Esc(b) => if b == 0x37 {
                self.saved()
            } else if b == 0x38 {
                self.restored()
            } else {
                self
            },
        }
    }

    /// The cell changes of one action.
    pub open spec fn changes(self, action: TermActionView) -> Seq<ScreenEvent> {
        match action {
            TermActionView::Print(c) => seq![
                ScreenEvent::Print(PrintEvent { ch: c, at: self.print_cell() }),
            ],
            TermActionView::Csi { params, intermediates, action } => {
                let mode = match param_at(params, 0) {
                    Some(n) => n,
                    None => 0,
                };
                if action == 'J' {
                    self.display_erased(mode)
                } else if action == 'K' {
                    self.line_erased(mode)
                } else {
                    Seq::empty()
                }
            },
            _ => Seq::empty(),
        }
    }

    /// The state after a sequence of actions.
    pub open spec fn after_all(self, actions: Seq<TermActionView>) -> ScreenState
        decreases actions.len(),
    {
        if actions.len() == 0 {
            self
        } else {
            self.after_all(actions.drop_last()).after(actions.last())
        }
    }

    /// The cell changes of a sequence of actions, in order.
    pub open spec fn all_changes(self, actions: Seq<TermActionView>) -> Seq<ScreenEvent>
        decreases actions.len(),
    {
        if actions.len() == 0 {
            Seq::empty()
        } else {
            self.all_changes(actions.drop_last()) + self.after_all(actions.drop_last()).changes(
                actions.last(),
            )
        }
    }

    /// The state of a fresh screen; a size of zero counts as one.
    pub open spec fn init(cols: u16, rows: u16) -> ScreenState {
        ScreenState {
            cursor: CursorPos { row: 0, col: 0 },
            saved_cursor: None,
            cols: if cols == 0 { 1 } else { cols },
            rows: if rows == 0 { 1 } else { rows },
            alt_screen: false,
            pending_wrap: false,
            version: 0,
        }
    }

    /// The state after a change of size: the cursor is moved onto the screen.
    pub open spec fn resized(self, cols: u16, rows: u16) -> ScreenState {
        let c = if cols == 0 { 1u16 } else { cols };
        let r = if rows == 0 { 1u16 } else { rows };
        ScreenState {
            cols: c,
            rows: r,
            cursor: CursorPos {
                row: at_most(self.cursor.row as int, r - 1) as u16,
                col: at_most(self.cursor.col as int, c - 1) as u16,
            },
            ..self
        }.bumped()
    }

    pub fn new(cols: u16, rows: u16) -> (r: Self)
        ensures
            r == ScreenState::init(cols, rows),
            r.wf(),
            r.on_screen(),
    {
        ScreenState {
            cursor: CursorPos { row: 0, col: 0 },
            saved_cursor: None,
            cols: if cols == 0 { 1 } else { cols },
            rows: if rows == 0 { 1 } else { rows },
            alt_screen: false,
            pending_wrap: false,
            version: 0,
        }
    }

    /// Follows a change of the terminal's size.
    pub fn resize(&mut self, cols: u16, rows: u16)
        requires
            old(self).wf(),
        ensures
            *final(self) == old(self).resized(cols, rows),
            final(self).wf(),
    {
        self.cols = if cols == 0 { 1 } else { cols };
        self.rows = if rows == 0 { 1 } else { rows };
        if self.cursor.row >= self.rows {
            self.cursor.row = self.rows - 1;
        }
        if self.cursor.col >= self.cols {
            self.cursor.col = self.cols - 1;
        }
        self.bump_version();
    }

    fn bump_version(&mut self)
        ensures
            *final(self) == old(self).bumped(),
    {
        self.version = self.version.wrapping_add(1);
    }

    fn move_to(&mut self, row: u16, col: u16)
        ensures
            *final(self) == old(self).moved(row as int, col as int),
    {
        self.cursor = CursorPos { row, col };
        self.pending_wrap = false;
        self.bump_version();
    }

    fn save_cursor(&mut self)
        ensures
            *final(self) == old(self).saved(),
    {
        let same = match self.saved_cursor {
            Some(c) => c.row == self.cursor.row && c.col == self.cursor.col,
            None => false,
        };
        if !same {
            self.saved_cursor = Some(self.cursor);
            self.bump_version();
        }
    }

    fn restore_cursor(&mut self)
        ensures
            *final(self) == old(self).restored(),
    {
        if let Some(c) = self.saved_cursor {
            self.move_to(c.row, c.col);
        }
    }

    fn print(&mut self, c: char, events: &mut Vec<ScreenEvent>)
        requires
            old(self).wf(),
        ensures
            *final(self) == old(self).after(TermActionView::Print(c)),
            final(events)@ == old(events)@ + old(self).changes(TermActionView::Print(c)),
    {
        let last_col: u16 = self.cols - 1;
        if self.pending_wrap {
            if self.cursor.row + 1 < self.rows {
                self.cursor.row = self.cursor.row + 1;
            }
            self.cursor.col = 0;
            self.pending_wrap = false;
        }
        events.push(ScreenEvent::Print(PrintEvent { ch: c, at: self.cursor }));
        if self.cursor.col < last_col {
            self.cursor.col = self.cursor.col + 1;
        } else {
            // Drawn in the last column: the next print wraps.
            self.pending_wrap = true;
        }
        self.bump_version();
        proof {
            assert(events@ =~= old(events)@ + old(self).changes(TermActionView::Print(c)));
        }
    }

    fn execute(&mut self, byte: u8)
        requires
            old(self).wf(),
        ensures
            *final(self) == old(self).executed(byte),
    {
        let row: u16 = self.cursor.row;
        let col: u16 = self.cursor.col;
        match byte {
            0x08 => {
                if col > 0 {
                    self.move_to(row, col - 1);
                }
            },
            0x09 => {
                let last_col: u16 = self.cols - 1;
                let next: u32 = (col as u32 / 8 + 1) * 8;
                let to: u16 = if next < last_col as u32 { next as u16 } else { last_col };
                self.move_to(row, to);
            },
            0x0A..=0x0C => {
                if row + 1 < self.rows {
                    self.move_to(row + 1, col);
                } else if self.pending_wrap {
                    self.move_to(row, col);
                }
            },
            0x0D => {
                if col != 0 || self.pending_wrap {
                    self.move_to(row, 0);
                }
            },
            _ => {},
        }
    }

    fn csi_dispatch(
        &mut self,
        params: &Vec<Vec<u16>>,
        intermediates: &Vec<u8>,
        action: char,
        events: &mut Vec<ScreenEvent>,
    )
        requires
            old(self).wf(),
        ensures
            ({
                let view = TermActionView::Csi {
                    params: params@.map_values(|g: Vec<u16>| g@),
                    intermediates: intermediates@,
                    action,
                };
                &&& *final(self) == old(self).after(view)
                &&& final(events)@ == old(events)@ + old(self).changes(view)
            }),
    {
        let p1: u16 = param_or(params, 0, 1);
        let p2: u16 = param_or(params, 1, 1);
        let last_col: u16 = self.cols - 1;
        let last_row: u16 = self.rows - 1;
        let row: u16 = self.cursor.row;
        let col: u16 = self.cursor.col;
        let plain = intermediates.len() == 0;
        let question = intermediates.len() > 0 && intermediates[0] == 0x3F;
        proof {
            assert(events@ + Seq::<ScreenEvent>::empty() =~= events@);
        }
        match action {
            'A' => {
                self.move_to(row.saturating_sub(p1), col);
            },
            'B' => {
                self.move_to(min_u16(row.saturating_add(p1), last_row), col);
            },
            'C' => {
                self.move_to(row, min_u16(col.saturating_add(p1), last_col));
            },
            'D' => {
                self.move_to(row, col.saturating_sub(p1));
            },
            'E' => {
                self.move_to(min_u16(row.saturating_add(p1), last_row), 0);
            },
            'F' => {
                self.move_to(row.saturating_sub(p1), 0);
            },
            'G' => {
                self.move_to(row, min_u16(p1 - 1, last_col));
            },
            'd' => {
                self.move_to(min_u16(p1 - 1, last_row), col);
            },
            'H' | 'f' => {
                self.move_to(min_u16(p1 - 1, last_row), min_u16(p2 - 1, last_col));
            },
            's' => {
                if plain {
                    self.save_cursor();
                }
            },
            'u' => {
                if plain {
                    self.restore_cursor();
                }
            },
            'h' => {
                if question && is_alt_screen_mode(params) {
                    self.alt_screen = true;
                    self.bump_version();
                }
            },
            'l' => {
                if question && is_alt_screen_mode(params) {
                    self.alt_screen = false;
                    self.bump_version();
                }
            },
            // ED and EL erase cells and leave the cursor where it is.
            'J' => {
                self.emit_ed(param(params, 0).unwrap_or(0), events);
            },
            'K' => {
                self.emit_el(param(params, 0).unwrap_or(0), events);
            },
            _ => {},
        }
    }

    fn emit_ed(&self, mode: u16, events: &mut Vec<ScreenEvent>)
        requires
            self.wf(),
        ensures
            final(events)@ == old(events)@ + self.display_erased(mode),
    {
        let cols: u16 = self.cols;
        let row: u16 = self.cursor.row;
        let col: u16 = self.cursor.col;
        match mode {
            0 => {
                push_erase(row, col, cols, events);
                push_erase_rows(row + 1, self.rows, cols, events);
            },
            1 => {
                push_erase_rows(0, row, cols, events);
                push_erase(row, 0, min_u16(col.saturating_add(1), cols), events);
            },
            _ => {
                push_erase_rows(0, self.rows, cols, events);
            },
        }
        proof {
            assert(events@ =~= old(events)@ + self.display_erased(mode));
        }
    }

    fn emit_el(&self, mode: u16, events: &mut Vec<ScreenEvent>)
        requires
            self.wf(),
        ensures
            final(events)@ == old(events)@ + self.line_erased(mode),
    {
        let cols: u16 = self.cols;
        let row: u16 = self.cursor.row;
        let col: u16 = self.cursor.col;
        match mode {
            0 => push_erase(row, col, cols, events),
            1 => push_erase(row, 0, min_u16(col.saturating_add(1), cols), events),
            _ => push_erase(row, 0, cols, events),
        }
    }

    /// Applies one parsed action: updates the state and appends the cell
    /// changes to `events`.
    pub fn apply(&mut self, action: &TermAction, events: &mut Vec<ScreenEvent>)
        requires
            old(self).wf(),
        ensures
            *final(self) == old(self).after(action@),
            final(events)@ == old(events)@ + old(self).changes(action@),
            final(self).wf(),
    {
        proof {
            after_keeps_wf(*self, action@);
            assert(events@ + Seq::<ScreenEvent>::empty() =~= events@);
        }
        match action {
            TermAction::Print(c) => self.print(*c, events),
            TermAction::Execute(b) => self.execute(*b),
            TermAction::Csi { params, intermediates, action } => self.csi_dispatch(
                params,
                intermediates,
                *action,
                events,
            ),
            TermAction::Esc(b) => {
                if *b == 0x37 {
                    self.save_cursor();
                } else if *b == 0x38 {
                    self.restore_cursor();
                }
            },
        }
    }

    /// Applies parsed actions in order.
    pub fn apply_all(&mut self, actions: &[TermAction], events: &mut Vec<ScreenEvent>)
        requires
            old(self).wf(),
        ensures
            *final(self) == old(self).after_all(actions_view(actions@)),
            final(events)@ == old(events)@ + old(self).all_changes(actions_view(actions@)),
            final(self).wf(),
    {
        let ghost all = actions_view(actions@);
        let mut i: usize = 0;
        proof {
            assert(events@ + Seq::<ScreenEvent>::empty() =~= events@);
        }
        while i < actions.len()
            invariant
                all == actions_view(actions@),
                i <= actions@.len(),
                self.wf(),
                *self == old(self).after_all(all.take(i as int)),
                events@ == old(events)@ + old(self).all_changes(all.take(i as int)),
            decreases actions@.len() - i,
        {
            self.apply(&actions[i], events);
            i += 1;
            proof {
                assert(all.take(i as int).drop_last() =~= all.take(i - 1));
                assert(events@ =~= old(events)@ + old(self).all_changes(all.take(i as int)));
            }
        }
        proof {
            assert(all.take(i as int) =~= all);
        }
    }
}

fn min_u16(a: u16, b: u16) -> (r: u16)
    ensures
        r == at_most(a as int, b as int),
{
    if a < b {
        a
    } else {
        b
    }
}

fn push_erase(row: u16, col_start: u16, col_end: u16, events: &mut Vec<ScreenEvent>)
    ensures
        final(events)@ == old(events)@ + erased(row as int, col_start as int, col_end as int),
{
    if col_end > col_start {
        events.push(ScreenEvent::Erase(EraseEvent { row, col_start, col_end }));
    }
    proof {
        assert(events@ =~= old(events)@ + erased(row as int, col_start as int, col_end as int));
    }
}

fn push_erase_rows(from: u16, to: u16, cols: u16, events: &mut Vec<ScreenEvent>)
    requires
        cols >= 1,
    ensures
        final(events)@ == old(events)@ + erased_rows(from as int, to as int, cols as int),
{
    let mut row: u16 = from;
    proof {
        assert(events@ =~= old(events)@ + erased_rows(from as int, row as int, cols as int));
    }
    while row < to
        invariant
            cols >= 1,
            from <= to ==> from <= row <= to,
            from > to ==> row == from,
            events@ == old(events)@ + erased_rows(from as int, row as int, cols as int),
        decreases to - row,
    {
        push_erase(row, 0, cols, events);
        row += 1;
        proof {
            assert(events@ =~= old(events)@ + erased_rows(from as int, row as int, cols as int));
        }
    }
    proof {
        assert(events@ =~= old(events)@ + erased_rows(from as int, to as int, cols as int));
    }
}

fn param(params: &Vec<Vec<u16>>, index: usize) -> (r: Option<u16>)
    ensures
        r == param_at(params@.map_values(|g: Vec<u16>| g@), index as int),
{
    if index < params.len() && params[index].len() > 0 {
        Some(params[index][0])
    } else {
        None
    }
}

fn param_or(params: &Vec<Vec<u16>>, index: usize, default: u16) -> (r: u16)
    ensures
        r == count_at(params@.map_values(|g: Vec<u16>| g@), index as int, default),
{
    match param(params, index) {
        Some(n) => if n > 0 {
            n
        } else {
            default
        },
        None => default,
    }
}

/// The alternate-screen modes: 47, 1047, and 1049, which also saves the
/// cursor.
fn is_alt_screen_mode(params: &Vec<Vec<u16>>) -> (r: bool)
    ensures
        r == names_alt_screen(params@.map_values(|g: Vec<u16>| g@)),
{
    let ghost view = params@.map_values(|g: Vec<u16>| g@);
    let mut i: usize = 0;
    while i < params.len()
        invariant
            view == params@.map_values(|g: Vec<u16>| g@),
            forall|j: int|
                j < i ==> !(param_at(view, j) == Some(47u16) || #[trigger] param_at(view, j)
                    == Some(1047u16) || param_at(view, j) == Some(1049u16)),
        decreases params@.len() - i,
    {
        match param(params, i) {
            Some(n) => if n == 47 || n == 1047 || n == 1049 {
                assert(param_at(view, i as int) == Some(n));
                return true;
            },
            None => {},
        }
        i += 1;
    }
    false
}

pub struct ScreenObserver {
    parser: vte::Parser,
    state: ScreenState,
}

impl ScreenObserver {
    /// The chunks of bytes observed so far.
    pub closed spec fn seen(&self) -> Seq<Seq<u8>> {
        parser_fed(self.parser)
    }

    /// The state of the screen.
    pub closed spec fn screen(&self) -> ScreenState {
        self.state
    }

    pub open spec fn wf(&self) -> bool {
        self.screen().wf()
    }

    pub fn new(cols: u16, rows: u16) -> (r: Self)
        ensures
            r.seen() == Seq::<Seq<u8>>::empty(),
            r.screen() == ScreenState::init(cols, rows),
            r.wf(),
    {
        ScreenObserver { parser: new_parser(), state: ScreenState::new(cols, rows) }
    }

    /// Follows bytes that the child has just written.
    pub fn observe(&mut self, bytes: &[u8])
        requires
            old(self).wf(),
        ensures
            final(self).seen() == old(self).seen().push(bytes@),
            final(self).screen() == old(self).screen().after_all(
                parsed_actions(old(self).seen(), bytes@),
            ),
            final(self).wf(),
    {
        let mut events: Vec<ScreenEvent> = Vec::new();
        self.observe_with_events(bytes, &mut events);
    }

    /// Like `observe`, and appends every cell-level change in byte order.
    pub fn observe_with_events(&mut self, bytes: &[u8], events: &mut Vec<ScreenEvent>)
        requires
            old(self).wf(),
        ensures
            final(self).seen() == old(self).seen().push(bytes@),
            final(self).screen() == old(self).screen().after_all(
                parsed_actions(old(self).seen(), bytes@),
            ),
            final(events)@ == old(events)@ + old(self).screen().all_changes(
                parsed_actions(old(self).seen(), bytes@),
            ),
            final(self).wf(),
    {
        let actions = advance(&mut self.parser, bytes);
        self.state.apply_all(actions.as_slice(), events);
    }

    pub fn state(&self) -> (r: &ScreenState)
        ensures
            *r == self.screen(),
    {
        &self.state
    }

    pub fn resize(&mut self, cols: u16, rows: u16)
        requires
            old(self).wf(),
        ensures
            final(self).seen() == old(self).seen(),
            final(self).screen() == old(self).screen().resized(cols, rows),
            final(self).wf(),
    {
        self.state.resize(cols, rows);
    }
}

/// An explicit move to a cell keeps whatever holds of that cell.
proof fn moved_keeps(s: ScreenState, row: int, col: int)
    requires
        s.wf(),
        0 <= row < u16::MAX,
        0 <= col < u16::MAX,
    ensures
        s.moved(row, col).wf(),
        s.on_screen() && row < s.rows && col < s.cols ==> s.moved(row, col).on_screen(),
{
}

/// Both invariants under a CSI sequence.
proof fn csi_keeps(s: ScreenState, params: Seq<Seq<u16>>, intermediates: Seq<u8>, action: char)
    requires
        s.wf(),
    ensures
        s.after_csi(params, intermediates, action).wf(),
        s.on_screen() ==> s.after_csi(params, intermediates, action).on_screen(),
{
    let p1 = count_at(params, 0, 1) as int;
    let p2 = count_at(params, 1, 1) as int;
    let row = s.cursor.row as int;
    let col = s.cursor.col as int;
    moved_keeps(s, at_least_zero(row - p1), col);
    moved_keeps(s, at_most(row + p1, s.last_row()), col);
    moved_keeps(s, row, at_most(col + p1, s.last_col()));
    moved_keeps(s, row, at_least_zero(col - p1));
    moved_keeps(s, at_most(row + p1, s.last_row()), 0);
    moved_keeps(s, at_least_zero(row - p1), 0);
    moved_keeps(s, row, at_most(p1 - 1, s.last_col()));
    moved_keeps(s, at_most(p1 - 1, s.last_row()), col);
    moved_keeps(s, at_most(p1 - 1, s.last_row()), at_most(p2 - 1, s.last_col()));
    let after = s.after_csi(params, intermediates, action);
    if action == 's' || action == 'u' || action == 'h' || action == 'l' {
        assert(after.wf());
    }
}

/// Every action leaves a well-formed state.
pub proof fn after_keeps_wf(s: ScreenState, action: TermActionView)
    requires
        s.wf(),
    ensures
        s.after(action).wf(),
{
    if let TermActionView::Csi { params, intermediates, action } = action {
        csi_keeps(s, params, intermediates, action);
    }
}

/// The cursor never leaves the screen: no action moves it, or a saved
/// position, off a screen that holds both.
pub proof fn after_keeps_on_screen(s: ScreenState, action: TermActionView)
    requires
        s.wf(),
        s.on_screen(),
    ensures
        s.after(action).on_screen(),
{
    if let TermActionView::Csi { params, intermediates, action } = action {
        csi_keeps(s, params, intermediates, action);
    }
}

/// Characters are drawn on the screen.
pub proof fn prints_land_on_screen(s: ScreenState, c: char)
    requires
        s.wf(),
        s.on_screen(),
    ensures
        s.print_cell().row < s.rows,
        s.print_cell().col < s.cols,
{
}

/// A change of size brings the cursor onto the screen.
pub proof fn resize_clamps_cursor(s: ScreenState, cols: u16, rows: u16)
    ensures
        s.resized(cols, rows).cursor.row < s.resized(cols, rows).rows,
        s.resized(cols, rows).cursor.col < s.resized(cols, rows).cols,
        !s.pending_wrap ==> s.resized(cols, rows).cursor_on_screen(),
{
}

/// The version tells every change: a state that differs has a version of its
/// own.
pub proof fn changes_bump_version(s: ScreenState, action: TermActionView)
    requires
        s.wf(),
        s.after(action) != s,
    ensures
        s.after(action).version == crate::buffer::next_version(s.version),
{
}

/// An erase leaves the whole state as it is; nothing but a print or an erase
/// changes a cell.
pub proof fn erase_keeps_state(s: ScreenState, action: TermActionView)
    requires
        s.wf(),
        s.changes(action).len() > 0,
    ensures
        action is Print || s.after(action) == s,
{
}

/// Whether an action saves the cursor position.
pub open spec fn is_save(action: TermActionView) -> bool {
    match action {
        TermActionView::Esc(b) => b == 0x37,
        TermActionView::Csi { params, intermediates, action } => action == 's'
            && intermediates.len() == 0,
        _ => false,
    }
}

/// A saved position comes back: after a save and any actions that save no
/// other position, the restore puts the cursor where it was.
pub proof fn restore_returns_to_save(s: ScreenState, between: Seq<TermActionView>)
    requires
        forall|i: int| 0 <= i < between.len() ==> !is_save(#[trigger] between[i]),
    ensures
        s.saved().after_all(between).restored().cursor == s.cursor,
        s.saved().after_all(between).saved_cursor == Some(s.cursor),
    decreases between.len(),
{
    if between.len() > 0 {
        let rest = between.drop_last();
        assert forall|i: int| 0 <= i < rest.len() implies !is_save(#[trigger] rest[i]) by {
            assert(rest[i] == between[i]);
        }
        restore_returns_to_save(s, rest);
        assert(!is_save(between[between.len() - 1]));
    }
}

/// Observing two chunks of actions is observing both at once.
pub proof fn after_all_concat(s: ScreenState, a: Seq<TermActionView>, b: Seq<TermActionView>)
    ensures
        s.after_all(a + b) == s.after_all(a).after_all(b),
        s.all_changes(a + b) == s.all_changes(a) + s.after_all(a).all_changes(b),
    decreases b.len(),
{
    if b.len() == 0 {
        assert(a + b =~= a);
        assert(s.all_changes(a) + Seq::<ScreenEvent>::empty() =~= s.all_changes(a));
    } else {
        after_all_concat(s, a, b.drop_last());
        assert((a + b).drop_last() =~= a + b.drop_last());
        assert(s.all_changes(a + b) =~= s.all_changes(a) + s.after_all(a).all_changes(b));
    }
}

/// Whether two screens have the same size, saved position and mode.
pub open spec fn same_frame(a: ScreenState, b: ScreenState) -> bool {
    a.rows == b.rows && a.cols == b.cols && a.saved_cursor == b.saved_cursor && a.alt_screen
        == b.alt_screen
}

/// A tab keeps the row and goes to the next column that is a multiple of
/// eight, or to the last column where there is none.
pub proof fn tab_goes_to_next_stop(s: ScreenState)
    requires
        s.wf(),
        s.cursor_on_screen(),
    ensures
        ({
            let after = s.after(TermActionView::Execute(0x09));
            let col = after.cursor.col as int;
            &&& same_frame(after, s)
            &&& !after.pending_wrap
            &&& after.cursor.row == s.cursor.row
            &&& forall|stop: int|
                #![trigger stop % 8]
                stop % 8 == 0 && s.cursor.col < stop <= col ==> stop == col
            &&& (col % 8 == 0 && s.cursor.col < col < s.cols) || (col == s.cols - 1 && forall|
                stop: int,
            |
                #![trigger stop % 8]
                stop % 8 == 0 && s.cursor.col < stop ==> stop >= s.cols)
        }),
{
    let c = s.cursor.col as int;
    let next = (c / 8 + 1) * 8;
    assert(next % 8 == 0 && c < next <= c + 8);
    assert forall|stop: int| #![trigger stop % 8] stop % 8 == 0 && c < stop implies stop >= next by {
        assert(stop == 8 * (stop / 8));
        assert(c >= 8 * (c / 8));
        assert(stop / 8 >= c / 8 + 1);
    }
}

/// Carriage return goes to the first column of the row.
pub proof fn carriage_return_goes_to_first_column(s: ScreenState)
    requires
        s.wf(),
    ensures
        ({
            let after = s.after(TermActionView::Execute(0x0D));
            &&& same_frame(after, s)
            &&& !after.pending_wrap
            &&& after.cursor.row == s.cursor.row && after.cursor.col == 0
        }),
{
}

/// A line feed goes one row down in the same column and stays in the last row.
/// Vertical tab and form feed do the same.
pub proof fn line_feed_goes_down(s: ScreenState, byte: u8)
    requires
        s.wf(),
        s.cursor_on_screen(),
        byte == 0x0A || byte == 0x0B || byte == 0x0C,
    ensures
        ({
            let after = s.after(TermActionView::Execute(byte));
            &&& same_frame(after, s)
            &&& !after.pending_wrap
            &&& after.cursor.col == s.cursor.col
            &&& s.cursor.row + 1 < s.rows ==> after.cursor.row == s.cursor.row + 1
            &&& s.cursor.row + 1 == s.rows ==> after.cursor.row == s.cursor.row
        }),
{
}

/// Backspace goes one column to the left and stays in the first column.
pub proof fn backspace_goes_left(s: ScreenState)
    requires
        s.wf(),
        s.cursor_on_screen(),
    ensures
        ({
            let after = s.after(TermActionView::Execute(0x08));
            &&& same_frame(after, s)
            &&& after.cursor.row == s.cursor.row
            &&& s.cursor.col > 0 ==> after.cursor.col == s.cursor.col - 1 && !after.pending_wrap
            &&& s.cursor.col == 0 ==> after.cursor.col == 0
        }),
{
}

/// Other control characters change nothing, and no control character draws.
pub proof fn other_controls_change_nothing(s: ScreenState, byte: u8)
    ensures
        byte != 0x08 && byte != 0x09 && byte != 0x0A && byte != 0x0B && byte != 0x0C && byte
            != 0x0D ==> s.after(TermActionView::Execute(byte)) == s,
        s.changes(TermActionView::Execute(byte)).len() == 0,
{
}

/// A character is drawn at the cursor, which then goes one column to the
/// right. In the last column it stays and the wrap is put off; the next
/// character is drawn at the start of the next row, or of the last row.
pub proof fn character_is_drawn_at_cursor(s: ScreenState, c: char)
    requires
        s.wf(),
        s.cursor_on_screen(),
    ensures
        ({
            let after = s.after(TermActionView::Print(c));
            let events = s.changes(TermActionView::Print(c));
            let at = events[0]->Print_0.at;
            &&& same_frame(after, s)
            &&& events.len() == 1 && events[0] is Print && events[0]->Print_0.ch == c
            &&& !s.pending_wrap ==> at == s.cursor
            &&& s.pending_wrap ==> at.col == 0
            &&& s.pending_wrap && s.cursor.row + 1 < s.rows ==> at.row == s.cursor.row + 1
            &&& s.pending_wrap && s.cursor.row + 1 == s.rows ==> at.row == s.cursor.row
            &&& after.cursor.row == at.row
            &&& at.col + 1 < s.cols ==> after.cursor.col == at.col + 1 && !after.pending_wrap
            &&& at.col + 1 == s.cols ==> after.cursor.col == at.col && after.pending_wrap
        }),
{
}

/// The actions that draw a text.
pub open spec fn print_actions(text: Seq<char>) -> Seq<TermActionView>
    decreases text.len(),
{
    if text.len() == 0 {
        Seq::empty()
    } else {
        print_actions(text.drop_last()).push(TermActionView::Print(text.last()))
    }
}

/// What drawing one character does, in one place.
proof fn draw_one(s: ScreenState, c: char)
    ensures
        s.changes(TermActionView::Print(c)) == seq![
            ScreenEvent::Print(PrintEvent { ch: c, at: s.print_cell() }),
        ],
        s.after(TermActionView::Print(c)) == s.printed(),
{
}

proof fn last_print(text: Seq<char>, c: char)
    requires
        text.len() > 0,
        c == text.last(),
    ensures
        print_actions(text) == print_actions(text.drop_last()).push(TermActionView::Print(c)),
        print_actions(text).drop_last() == print_actions(text.drop_last()),
        print_actions(text).last() == TermActionView::Print(c),
        print_actions(text).len() > 0,
{
    let a = print_actions(text.drop_last());
    let x = TermActionView::Print(c);
    assert(print_actions(text) == a.push(x));
    assert(a.push(x).drop_last() =~= a);
}

/// Text that fits in the row is drawn in consecutive cells from the cursor on.
pub proof fn text_is_drawn_in_a_row(s: ScreenState, text: Seq<char>)
    requires
        s.wf(),
        s.cursor_on_screen(),
        !s.pending_wrap,
        s.cursor.col + text.len() <= s.cols,
    ensures
        ({
            let events = s.all_changes(print_actions(text));
            let after = s.after_all(print_actions(text));
            &&& events.len() == text.len()
            &&& forall|k: int|
                0 <= k < text.len() ==> (#[trigger] events[k]) == ScreenEvent::Print(
                    PrintEvent {
                        ch: text[k],
                        at: CursorPos {
                            row: s.cursor.row,
                            col: (s.cursor.col + k) as u16,
                        },
                    },
                )
            &&& same_frame(after, s)
            &&& after.cursor.row == s.cursor.row
            &&& s.cursor.col + text.len() < s.cols ==> after.cursor.col == s.cursor.col
                + text.len() && !after.pending_wrap
            &&& s.cursor.col + text.len() == s.cols ==> after.cursor.col == s.cols - 1
                && after.pending_wrap
        }),
    decreases text.len(),
{
    if text.len() > 0 {
        let init = text.drop_last();
        text_is_drawn_in_a_row(s, init);
        let c = text.last();
        last_print(text, c);
        draw_one(s.after_all(print_actions(init)), c);
        let mid = s.after_all(print_actions(init));
        let before = s.all_changes(print_actions(init));
        let events = s.all_changes(print_actions(text));
        let n = init.len() as int;
        assert(events == before + mid.changes(TermActionView::Print(c)));
        assert forall|k: int| 0 <= k < text.len() implies (#[trigger] events[k])
            == ScreenEvent::Print(
            PrintEvent {
                ch: text[k],
                at: CursorPos { row: s.cursor.row, col: (s.cursor.col + k) as u16 },
            },
        ) by {
            if k < n {
                assert(events[k] == before[k]);
            }
        }
    }
}

/// A CSI sequence with one number, and none of the bytes that mark a private
/// one.
pub open spec fn csi_one(n: u16, action: char) -> TermActionView {
    TermActionView::Csi { params: seq![seq![n]], intermediates: Seq::empty(), action }
}

/// The four arrow sequences move by their number and stop at the edges.
pub proof fn cursor_moves_by_number(s: ScreenState, n: u16)
    requires
        s.wf(),
        s.cursor_on_screen(),
        n > 0,
    ensures
        ({
            let up = s.after(csi_one(n, 'A'));
            let down = s.after(csi_one(n, 'B'));
            let right = s.after(csi_one(n, 'C'));
            let left = s.after(csi_one(n, 'D'));
            &&& same_frame(up, s) && same_frame(down, s) && same_frame(right, s) && same_frame(
                left,
                s,
            )
            &&& up.cursor.col == s.cursor.col && down.cursor.col == s.cursor.col
            &&& right.cursor.row == s.cursor.row && left.cursor.row == s.cursor.row
            &&& n <= s.cursor.row ==> up.cursor.row == s.cursor.row - n
            &&& n > s.cursor.row ==> up.cursor.row == 0
            &&& s.cursor.row + n < s.rows ==> down.cursor.row == s.cursor.row + n
            &&& s.cursor.row + n >= s.rows ==> down.cursor.row == s.rows - 1
            &&& s.cursor.col + n < s.cols ==> right.cursor.col == s.cursor.col + n
            &&& s.cursor.col + n >= s.cols ==> right.cursor.col == s.cols - 1
            &&& n <= s.cursor.col ==> left.cursor.col == s.cursor.col - n
            &&& n > s.cursor.col ==> left.cursor.col == 0
            &&& !up.pending_wrap && !down.pending_wrap && !right.pending_wrap
                && !left.pending_wrap
        }),
{
    one_param(n);
}

proof fn one_param(n: u16)
    ensures
        n > 0 ==> count_at(seq![seq![n]], 0, 1) == n,
        count_at(seq![seq![n]], 1, 1) == 1,
        param_at(seq![seq![n]], 0) == Some(n),
{
}

/// Moves to the start of a row above or below, and to a column or a row by its
/// number counted from one, kept on the screen.
pub proof fn cursor_goes_to_line_or_column(s: ScreenState, n: u16)
    requires
        s.wf(),
        s.cursor_on_screen(),
        n > 0,
    ensures
        ({
            let below = s.after(csi_one(n, 'E'));
            let above = s.after(csi_one(n, 'F'));
            let column = s.after(csi_one(n, 'G'));
            let line = s.after(csi_one(n, 'd'));
            &&& same_frame(below, s) && same_frame(above, s) && same_frame(column, s)
                && same_frame(line, s)
            &&& below.cursor.row == s.after(csi_one(n, 'B')).cursor.row && below.cursor.col == 0
            &&& above.cursor.row == s.after(csi_one(n, 'A')).cursor.row && above.cursor.col == 0
            &&& column.cursor.row == s.cursor.row && line.cursor.col == s.cursor.col
            &&& n <= s.cols ==> column.cursor.col == n - 1
            &&& n > s.cols ==> column.cursor.col == s.cols - 1
            &&& n <= s.rows ==> line.cursor.row == n - 1
            &&& n > s.rows ==> line.cursor.row == s.rows - 1
            &&& !below.pending_wrap && !above.pending_wrap && !column.pending_wrap
                && !line.pending_wrap
        }),
{
    one_param(n);
}

/// Positioning goes to the row and column by their numbers, counted from one
/// and kept on the screen, in both forms of the sequence.
pub proof fn cursor_goes_to_position(s: ScreenState, row: u16, col: u16, action: char)
    requires
        s.wf(),
        row > 0,
        col > 0,
        action == 'H' || action == 'f',
    ensures
        ({
            let after = s.after(
                TermActionView::Csi {
                    params: seq![seq![row], seq![col]],
                    intermediates: Seq::empty(),
                    action,
                },
            );
            &&& same_frame(after, s)
            &&& !after.pending_wrap
            &&& row <= s.rows ==> after.cursor.row == row - 1
            &&& row > s.rows ==> after.cursor.row == s.rows - 1
            &&& col <= s.cols ==> after.cursor.col == col - 1
            &&& col > s.cols ==> after.cursor.col == s.cols - 1
        }),
{
    let params = seq![seq![row], seq![col]];
    assert(param_at(params, 0) == Some(row));
    assert(param_at(params, 1) == Some(col));
}

/// A missing number and a zero stand for one.
pub proof fn missing_numbers_are_one(s: ScreenState, params: Seq<Seq<u16>>, action: char)
    requires
        params == Seq::<Seq<u16>>::empty() || params == seq![seq![0u16]],
        action == 'A' || action == 'B' || action == 'C' || action == 'D' || action == 'E' || action
            == 'F' || action == 'G' || action == 'd' || action == 'H' || action == 'f',
    ensures
        s.after(TermActionView::Csi { params, intermediates: Seq::empty(), action }) == s.after(
            csi_one(1, action),
        ),
{
    one_param(1);
    one_param(0);
    assert(count_at(params, 0, 1) == 1);
    assert(count_at(params, 1, 1) == 1);
}

/// Both forms of save and restore do the same: the first remembers where the
/// cursor is, the second takes it back there.
pub proof fn save_and_restore_the_cursor(s: ScreenState)
    ensures
        ({
            let csi_save = TermActionView::Csi {
                params: Seq::empty(),
                intermediates: Seq::empty(),
                action: 's',
            };
            let csi_restore = TermActionView::Csi {
                params: Seq::empty(),
                intermediates: Seq::empty(),
                action: 'u',
            };
            &&& s.after(csi_save) == s.after(TermActionView::Esc(0x37))
            &&& s.after(csi_restore) == s.after(TermActionView::Esc(0x38))
            &&& s.after(csi_save).saved_cursor == Some(s.cursor)
            &&& s.after(csi_save).cursor == s.cursor
            &&& s.after(csi_save).pending_wrap == s.pending_wrap
            &&& s.saved_cursor matches Some(c) ==> s.after(csi_restore).cursor == c && !s.after(
                csi_restore,
            ).pending_wrap
            &&& s.saved_cursor is None ==> s.after(csi_restore) == s
            &&& s.after(csi_restore).saved_cursor == s.saved_cursor
        }),
{
}

/// The three modes of the alternate screen are turned on and off by private
/// sequences and by nothing else; the cursor stays.
pub proof fn alternate_screen_is_followed(s: ScreenState, mode: u16, action: char)
    requires
        action == 'h' || action == 'l',
    ensures
        ({
            let after = s.after(
                TermActionView::Csi {
                    params: seq![seq![mode]],
                    intermediates: seq![0x3Fu8],
                    action,
                },
            );
            &&& after.cursor == s.cursor && after.saved_cursor == s.saved_cursor
            &&& after.rows == s.rows && after.cols == s.cols
            &&& mode == 47 || mode == 1047 || mode == 1049 ==> after.alt_screen == (action == 'h')
            &&& !(mode == 47 || mode == 1047 || mode == 1049) ==> after == s
            &&& s.after(csi_one(mode, action)) == s
        }),
{
    let params = seq![seq![mode]];
    assert(param_at(params, 0) == Some(mode));
    if mode == 47 || mode == 1047 || mode == 1049 {
        assert(names_alt_screen(params));
    } else {
        assert forall|i: int| param_at(params, i) is Some implies param_at(params, i) == Some(
            mode,
        ) by {}
    }
}

/// Sequences that only change how text looks, and all others that are not
/// followed, change nothing.
pub proof fn other_sequences_change_nothing(
    s: ScreenState,
    params: Seq<Seq<u16>>,
    intermediates: Seq<u8>,
    action: char,
)
    requires
        !('A' <= action <= 'H') && action != 'J' && action != 'K' && action != 'd' && action != 'f'
            && action != 'h' && action != 'l' && action != 's' && action != 'u',
    ensures
        s.after(TermActionView::Csi { params, intermediates, action }) == s,
        s.changes(TermActionView::Csi { params, intermediates, action }).len() == 0,
{
}

/// Escape sequences but for save and restore change nothing.
pub proof fn other_escapes_change_nothing(s: ScreenState, byte: u8)
    ensures
        byte != 0x37 && byte != 0x38 ==> s.after(TermActionView::Esc(byte)) == s,
        s.changes(TermActionView::Esc(byte)).len() == 0,
{
}

/// Whether events erase a cell.
pub open spec fn erases(events: Seq<ScreenEvent>, row: int, col: int) -> bool {
    exists|i: int|
        0 <= i < events.len() && is_erase_of(#[trigger] events[i], row, col)
}

/// Whether an event erases a cell.
pub open spec fn is_erase_of(event: ScreenEvent, row: int, col: int) -> bool {
    event matches ScreenEvent::Erase(e) && e.row == row && e.col_start <= col < e.col_end
}

proof fn erased_cells(row: int, from: int, to: int, r: int, c: int)
    requires
        0 <= row < 0x10000,
        0 <= from,
        to < 0x10000,
    ensures
        erases(erased(row, from, to), r, c) <==> r == row && from <= c < to,
{
    let events = erased(row, from, to);
    if r == row && from <= c < to {
        assert(is_erase_of(events[0], r, c));
    }
}

proof fn erased_rows_cells(from: int, to: int, cols: int, r: int, c: int)
    requires
        0 <= from,
        to < 0x10000,
        0 < cols < 0x10000,
    ensures
        erases(erased_rows(from, to, cols), r, c) <==> from <= r < to && 0 <= c < cols,
{
    let events = erased_rows(from, to, cols);
    if from <= r < to && 0 <= c < cols {
        assert(is_erase_of(events[r - from], r, c));
    }
}

proof fn erases_concat(a: Seq<ScreenEvent>, b: Seq<ScreenEvent>, r: int, c: int)
    ensures
        erases(a + b, r, c) <==> erases(a, r, c) || erases(b, r, c),
{
    let all = a + b;
    if erases(a, r, c) {
        let i = choose|i: int| 0 <= i < a.len() && is_erase_of(#[trigger] a[i], r, c);
        assert(all[i] == a[i]);
    }
    if erases(b, r, c) {
        let i = choose|i: int| 0 <= i < b.len() && is_erase_of(#[trigger] b[i], r, c);
        assert(all[a.len() + i] == b[i]);
    }
    if erases(all, r, c) {
        let i = choose|i: int| 0 <= i < all.len() && is_erase_of(#[trigger] all[i], r, c);
        if i < a.len() {
            assert(a[i] == all[i]);
        } else {
            assert(b[i - a.len()] == all[i]);
        }
    }
}

/// An erase of the display takes the cells from the cursor on, those up to and
/// with the cursor, or all of them, in the order in which they are read.
pub proof fn display_is_erased(s: ScreenState, mode: u16, row: int, col: int)
    requires
        s.wf(),
        s.cursor_on_screen(),
        0 <= row < s.rows,
        0 <= col < s.cols,
    ensures
        ({
            let events = s.changes(csi_one(mode, 'J'));
            let plain = TermActionView::Csi {
                params: Seq::empty(),
                intermediates: Seq::empty(),
                action: 'J',
            };
            let before = row < s.cursor.row || (row == s.cursor.row && col < s.cursor.col);
            let here = row == s.cursor.row && col == s.cursor.col;
            &&& mode == 0 ==> (erases(events, row, col) <==> !before)
            &&& mode == 1 ==> (erases(events, row, col) <==> before || here)
            &&& mode >= 2 ==> erases(events, row, col)
            &&& s.changes(plain) == s.changes(csi_one(0, 'J'))
        }),
{
    one_param(mode);
    one_param(0);
    let r = s.cursor.row as int;
    let c = s.cursor.col as int;
    let cols = s.cols as int;
    let rows = s.rows as int;
    erased_cells(r, c, cols, row, col);
    erased_rows_cells(r + 1, rows, cols, row, col);
    erases_concat(erased(r, c, cols), erased_rows(r + 1, rows, cols), row, col);
    erased_rows_cells(0, r, cols, row, col);
    erased_cells(r, 0, at_most(c + 1, cols), row, col);
    erases_concat(erased_rows(0, r, cols), erased(r, 0, at_most(c + 1, cols)), row, col);
    erased_rows_cells(0, rows, cols, row, col);
}

/// An erase of the line takes the cells from the cursor on, those up to and
/// with the cursor, or all of them, in the row of the cursor only.
pub proof fn line_is_erased(s: ScreenState, mode: u16, row: int, col: int)
    requires
        s.wf(),
        s.cursor_on_screen(),
        0 <= row < s.rows,
        0 <= col < s.cols,
    ensures
        ({
            let events = s.changes(csi_one(mode, 'K'));
            let plain = TermActionView::Csi {
                params: Seq::empty(),
                intermediates: Seq::empty(),
                action: 'K',
            };
            &&& row != s.cursor.row ==> !erases(events, row, col)
            &&& mode == 0 && row == s.cursor.row ==> (erases(events, row, col) <==> col
                >= s.cursor.col)
            &&& mode == 1 && row == s.cursor.row ==> (erases(events, row, col) <==> col
                <= s.cursor.col)
            &&& mode >= 2 && row == s.cursor.row ==> erases(events, row, col)
            &&& s.changes(plain) == s.changes(csi_one(0, 'K'))
        }),
{
    one_param(mode);
    one_param(0);
    let r = s.cursor.row as int;
    let c = s.cursor.col as int;
    let cols = s.cols as int;
    erased_cells(r, c, cols, row, col);
    erased_cells(r, 0, at_most(c + 1, cols), row, col);
    erased_cells(r, 0, cols, row, col);
}

/// An erase draws nothing, and only the two erase sequences and a drawn
/// character change cells.
pub proof fn only_erases_erase(s: ScreenState, action: TermActionView, i: int)
    requires
        s.wf(),
        0 <= i < s.changes(action).len(),
    ensures
        action is Print || (action is Csi && (action->Csi_action == 'J' || action->Csi_action
            == 'K')),
        !(action is Print) ==> s.changes(action)[i] is Erase,
{
}

/// A change of size takes the new size, and the cursor stays where it is as
/// far as the screen still has that place.
pub proof fn resize_keeps_the_cursor(s: ScreenState, cols: u16, rows: u16)
    requires
        cols > 0,
        rows > 0,
    ensures
        ({
            let after = s.resized(cols, rows);
            &&& after.cols == cols && after.rows == rows
            &&& s.cursor.row < rows ==> after.cursor.row == s.cursor.row
            &&& s.cursor.row >= rows ==> after.cursor.row == rows - 1
            &&& s.cursor.col < cols ==> after.cursor.col == s.cursor.col
            &&& s.cursor.col >= cols ==> after.cursor.col == cols - 1
            &&& after.saved_cursor == s.saved_cursor && after.alt_screen == s.alt_screen
            &&& after.version != s.version
        }),
{
}

/// A fresh screen has its cursor in the upper left corner.
pub proof fn screen_starts_at_the_corner(cols: u16, rows: u16)
    requires
        cols > 0,
        rows > 0,
    ensures
        ({
            let s = ScreenState::init(cols, rows);
            &&& s.cols == cols && s.rows == rows
            &&& s.cursor.row == 0 && s.cursor.col == 0
            &&& s.saved_cursor is None && !s.alt_screen && !s.pending_wrap
        }),
{
}

/// One action at a time.
pub proof fn one_action_is_itself(s: ScreenState, action: TermActionView)
    ensures
        s.after_all(seq![action]) == s.after(action),
        s.all_changes(seq![action]) == s.changes(action),
        s.after_all(Seq::empty()) == s,
        s.all_changes(Seq::empty()).len() == 0,
{
    assert(seq![action].drop_last() =~= Seq::<TermActionView>::empty());
    assert(s.after_all(seq![action].drop_last()) == s);
    assert(s.all_changes(seq![action].drop_last()) =~= Seq::<ScreenEvent>::empty());
    assert(s.all_changes(seq![action]) == s.all_changes(seq![action].drop_last()) + s.changes(
        seq![action].last(),
    ));
    assert(s.all_changes(seq![action]) =~= s.changes(action));
}

} // verus!
