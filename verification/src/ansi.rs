//! Terminal output as the overlay writes it: relative cursor moves, styles and
//! text.
//!
//! Only relative moves are used. The observer's coordinates and those of the
//! local terminal have different origins, and the difference cancels out in a
//! relative move. The saved-cursor slot belongs to the child and is left
//! alone.

use crate::screen::{CursorPos, ScreenState, TermActionView};
use crate::text::{digits, push_digits};
use vstd::prelude::*;
use vstd::utf8::encode_utf8;

verus! {

/// A piece of terminal output.
pub enum Token {
    Up(int),
    Down(int),
    Left(int),
    Right(int),
    /// An escape sequence that changes how text looks and nothing else.
    Style(Seq<char>),
    Text(Seq<char>),
}

/// A CSI sequence with one number.
pub open spec fn csi_bytes(n: int, final_byte: u8) -> Seq<u8> {
    seq![0x1Bu8, 0x5B] + digits(n as nat) + seq![final_byte]
}

/// What is written for a token.
pub open spec fn token_bytes(t: Token) -> Seq<u8> {
    match t {
        Token::Up(n) => csi_bytes(n, 0x41),
        Token::Down(n) => csi_bytes(n, 0x42),
        Token::Right(n) => csi_bytes(n, 0x43),
        Token::Left(n) => csi_bytes(n, 0x44),
        Token::Style(s) => encode_utf8(s),
        Token::Text(s) => encode_utf8(s),
    }
}

/// What is written for a sequence of tokens.
pub open spec fn tokens_bytes(tokens: Seq<Token>) -> Seq<u8>
    decreases tokens.len(),
{
    if tokens.len() == 0 {
        Seq::empty()
    } else {
        tokens_bytes(tokens.drop_last()) + token_bytes(tokens.last())
    }
}

pub proof fn tokens_bytes_concat(a: Seq<Token>, b: Seq<Token>)
    ensures
        tokens_bytes(a + b) == tokens_bytes(a) + tokens_bytes(b),
    decreases b.len(),
{
    if b.len() == 0 {
        assert(a + b =~= a);
        assert(tokens_bytes(a) + tokens_bytes(b) =~= tokens_bytes(a));
    } else {
        tokens_bytes_concat(a, b.drop_last());
        assert((a + b).drop_last() =~= a + b.drop_last());
        assert(tokens_bytes(a + b) =~= tokens_bytes(a) + tokens_bytes(b));
    }
}

pub proof fn tokens_bytes_one(t: Token)
    ensures
        tokens_bytes(seq![t]) == token_bytes(t),
{
    assert(seq![t].drop_last() =~= Seq::<Token>::empty());
    assert(tokens_bytes(seq![t].drop_last()) =~= Seq::<u8>::empty());
    assert(tokens_bytes(seq![t]) =~= token_bytes(t));
}

/// The vertical part of a move by `d` rows.
pub open spec fn row_tokens(d: int) -> Seq<Token> {
    if d < 0 {
        seq![Token::Up(-d)]
    } else if d > 0 {
        seq![Token::Down(d)]
    } else {
        Seq::empty()
    }
}

/// The horizontal part of a move by `d` columns.
pub open spec fn col_tokens(d: int) -> Seq<Token> {
    if d < 0 {
        seq![Token::Left(-d)]
    } else if d > 0 {
        seq![Token::Right(d)]
    } else {
        Seq::empty()
    }
}

/// A position on the screen: row and column.
pub struct Pos {
    pub row: int,
    pub col: int,
}

pub open spec fn pos(p: CursorPos) -> Pos {
    Pos { row: p.row as int, col: p.col as int }
}

/// The relative moves that lead from one position to another.
pub open spec fn move_tokens(from: Pos, to: Pos) -> Seq<Token> {
    row_tokens(to.row - from.row) + col_tokens(to.col - from.col)
}

fn push_csi(out: &mut Vec<u8>, n: u16, final_byte: u8)
    ensures
        final(out)@ == old(out)@ + csi_bytes(n as int, final_byte),
{
    out.push(0x1B);
    out.push(0x5B);
    push_digits(out, n as u64);
    out.push(final_byte);
    proof {
        assert(out@ =~= old(out)@ + csi_bytes(n as int, final_byte));
    }
}

/// Appends the UTF-8 bytes of a text.
pub fn push_text(out: &mut Vec<u8>, s: &str)
    ensures
        final(out)@ == old(out)@ + encode_utf8(s@),
{
    let bytes = s.as_bytes();
    let mut i: usize = 0;
    proof {
        assert(out@ =~= old(out)@ + bytes@.take(0));
    }
    while i < bytes.len()
        invariant
            i <= bytes@.len(),
            out@ == old(out)@ + bytes@.take(i as int),
        decreases bytes@.len() - i,
    {
        out.push(bytes[i]);
        i += 1;
        proof {
            assert(out@ =~= old(out)@ + bytes@.take(i as int));
        }
    }
    proof {
        assert(bytes@.take(i as int) =~= bytes@);
    }
}

/// Moves the cursor from one position to another by relative moves.
pub fn emit_relative_move(out: &mut Vec<u8>, from: CursorPos, to: CursorPos)
    ensures
        final(out)@ == old(out)@ + tokens_bytes(move_tokens(pos(from), pos(to))),
{
    proof {
        let rows = row_tokens(to.row - from.row);
        let cols = col_tokens(to.col - from.col);
        tokens_bytes_concat(rows, cols);
        if rows.len() > 0 {
            assert(rows =~= seq![rows[0]]);
            tokens_bytes_one(rows[0]);
        }
        if cols.len() > 0 {
            assert(cols =~= seq![cols[0]]);
            tokens_bytes_one(cols[0]);
        }
    }
    if to.row < from.row {
        push_csi(out, from.row - to.row, 0x41);
    } else if to.row > from.row {
        push_csi(out, to.row - from.row, 0x42);
    }
    proof {
        assert(out@ =~= old(out)@ + tokens_bytes(row_tokens(to.row - from.row)));
    }
    if to.col < from.col {
        push_csi(out, from.col - to.col, 0x44);
    } else if to.col > from.col {
        push_csi(out, to.col - from.col, 0x43);
    }
    proof {
        assert(out@ =~= old(out)@ + tokens_bytes(move_tokens(pos(from), pos(to))));
    }
}

/// The moves that lead from one position to another on a screen of `cols`
/// columns, for text to be written there. In the last column the cursor may
/// wait to wrap, and only a move keeps it there: it is moved away and back.
pub open spec fn approach_tokens(cols: int, from: Pos, to: Pos) -> Seq<Token> {
    if from == to && to.col + 1 == cols {
        seq![Token::Left(1), Token::Right(1)]
    } else {
        move_tokens(from, to)
    }
}

/// Moves the cursor to a position where text can be written.
pub(crate) fn approach(out: &mut Vec<u8>, cols: u16, from: CursorPos, to: CursorPos)
    ensures
        final(out)@ == old(out)@ + tokens_bytes(approach_tokens(cols as int, pos(from), pos(to))),
{
    if from.row == to.row && from.col == to.col && to.col < cols && to.col + 1 == cols {
        push_csi(out, 1, 0x44);
        push_csi(out, 1, 0x43);
        proof {
            tokens_bytes_concat(seq![Token::Left(1)], seq![Token::Right(1)]);
            tokens_bytes_one(Token::Left(1));
            tokens_bytes_one(Token::Right(1));
            assert(seq![Token::Left(1)] + seq![Token::Right(1)] =~= seq![
                Token::Left(1),
                Token::Right(1),
            ]);
            assert(out@ =~= old(out)@ + tokens_bytes(
                approach_tokens(cols as int, pos(from), pos(to)),
            ));
        }
    } else {
        emit_relative_move(out, from, to);
    }
}

/// Where the cursor stands after text that ends before column `end`: there, or
/// in the last column where the text fills the row.
pub open spec fn resting_col(end: int, cols: int) -> int {
    if end >= cols && cols > 0 {
        cols - 1
    } else {
        end
    }
}

pub(crate) fn rest_at(row: u16, end: u16, cols: u16) -> (r: CursorPos)
    ensures
        pos(r) == (Pos { row: row as int, col: resting_col(end as int, cols as int) }),
{
    CursorPos { row, col: if end >= cols && cols > 0 { cols - 1 } else { end } }
}

/// A piece of text drawn at a position, between two styles. `end_col` is the
/// column behind it.
pub struct Stroke {
    pub row: int,
    pub col: int,
    pub open: Seq<char>,
    pub text: Seq<char>,
    pub close: Seq<char>,
    pub end_col: int,
}

/// One stroke, with the pen at `pen`.
pub open spec fn stroke_tokens(cols: int, pen: Pos, s: Stroke) -> Seq<Token> {
    approach_tokens(cols, pen, Pos { row: s.row, col: s.col }) + seq![
        Token::Style(s.open),
        Token::Text(s.text),
        Token::Style(s.close),
    ]
}

/// Where the pen stands after strokes.
pub open spec fn pen_after(cols: int, pen: Pos, strokes: Seq<Stroke>) -> Pos {
    if strokes.len() == 0 {
        pen
    } else {
        Pos { row: strokes.last().row, col: resting_col(strokes.last().end_col, cols) }
    }
}

/// Strokes one after the other, with the pen at `pen` first.
pub open spec fn drawn(cols: int, pen: Pos, strokes: Seq<Stroke>) -> Seq<Token>
    decreases strokes.len(),
{
    if strokes.len() == 0 {
        Seq::empty()
    } else {
        drawn(cols, pen, strokes.drop_last()) + stroke_tokens(
            cols,
            pen_after(cols, pen, strokes.drop_last()),
            strokes.last(),
        )
    }
}

/// Strokes drawn from `home`, and the pen brought back there. Nothing at all
/// where there is nothing to draw.
pub open spec fn drawn_from(cols: int, home: Pos, strokes: Seq<Stroke>) -> Seq<Token> {
    if strokes.len() == 0 {
        Seq::empty()
    } else {
        drawn(cols, home, strokes) + approach_tokens(cols, pen_after(cols, home, strokes), home)
    }
}

/// Draws one stroke with the pen at `pen`.
pub(crate) fn draw(
    out: &mut Vec<u8>,
    cols: u16,
    pen: CursorPos,
    at: CursorPos,
    open: &str,
    text: &str,
    close: &str,
    Ghost(strokes): Ghost<Seq<Stroke>>,
    Ghost(home): Ghost<Pos>,
    Ghost(end_col): Ghost<int>,
)
    requires
        old(out)@ == tokens_bytes(drawn(cols as int, home, strokes)),
        pos(pen) == pen_after(cols as int, home, strokes),
    ensures
        final(out)@ == tokens_bytes(
            drawn(
                cols as int,
                home,
                strokes.push(
                    Stroke {
                        row: at.row as int,
                        col: at.col as int,
                        open: open@,
                        text: text@,
                        close: close@,
                        end_col,
                    },
                ),
            ),
        ),
{
    let ghost s = Stroke {
        row: at.row as int,
        col: at.col as int,
        open: open@,
        text: text@,
        close: close@,
        end_col,
    };
    approach(out, cols, pen, at);
    push_text(out, open);
    push_text(out, text);
    push_text(out, close);
    proof {
        let all = strokes.push(s);
        assert(all.drop_last() =~= strokes);
        let moves = approach_tokens(cols as int, pos(pen), pos(at));
        let parts = seq![Token::Style(s.open), Token::Text(s.text), Token::Style(s.close)];
        tokens_bytes_concat(
            drawn(cols as int, home, strokes),
            stroke_tokens(cols as int, pos(pen), s),
        );
        tokens_bytes_concat(moves, parts);
        tokens_bytes_concat(seq![Token::Style(s.open)], seq![Token::Text(s.text)]);
        tokens_bytes_concat(
            seq![Token::Style(s.open)] + seq![Token::Text(s.text)],
            seq![Token::Style(s.close)],
        );
        tokens_bytes_one(Token::Style(s.open));
        tokens_bytes_one(Token::Text(s.text));
        tokens_bytes_one(Token::Style(s.close));
        assert(parts =~= seq![Token::Style(s.open)] + seq![Token::Text(s.text)] + seq![
            Token::Style(s.close),
        ]);
        assert(out@ =~= tokens_bytes(drawn(cols as int, home, all)));
    }
}

/// Brings the pen home after strokes; writes nothing where none were drawn.
pub(crate) fn finish(
    out: &mut Vec<u8>,
    cols: u16,
    pen: CursorPos,
    home: CursorPos,
    wrote: bool,
    Ghost(strokes): Ghost<Seq<Stroke>>,
)
    requires
        old(out)@ == tokens_bytes(drawn(cols as int, pos(home), strokes)),
        pos(pen) == pen_after(cols as int, pos(home), strokes),
        wrote == (strokes.len() > 0),
    ensures
        final(out)@ == tokens_bytes(drawn_from(cols as int, pos(home), strokes)),
{
    if wrote {
        approach(out, cols, pen, home);
        proof {
            let c = cols as int;
            tokens_bytes_concat(
                drawn(c, pos(home), strokes),
                approach_tokens(c, pen_after(c, pos(home), strokes), pos(home)),
            );
        }
    }
}

/// What a token does to a screen.
pub open spec fn run(s: ScreenState, t: Token) -> ScreenState {
    match t {
        Token::Up(n) => moved_by(s, n, 'A'),
        Token::Down(n) => moved_by(s, n, 'B'),
        Token::Right(n) => moved_by(s, n, 'C'),
        Token::Left(n) => moved_by(s, n, 'D'),
        Token::Style(_) => s,
        Token::Text(text) => printed(s, text.len()),
    }
}

pub open spec fn moved_by(s: ScreenState, n: int, action: char) -> ScreenState {
    s.after(
        TermActionView::Csi { params: seq![seq![n as u16]], intermediates: Seq::empty(), action },
    )
}

pub open spec fn printed(s: ScreenState, n: nat) -> ScreenState
    decreases n,
{
    if n == 0 {
        s
    } else {
        printed(s, (n - 1) as nat).printed()
    }
}

pub open spec fn run_all(s: ScreenState, tokens: Seq<Token>) -> ScreenState
    decreases tokens.len(),
{
    if tokens.len() == 0 {
        s
    } else {
        run(run_all(s, tokens.drop_last()), tokens.last())
    }
}

pub proof fn run_all_concat(s: ScreenState, a: Seq<Token>, b: Seq<Token>)
    ensures
        run_all(s, a + b) == run_all(run_all(s, a), b),
    decreases b.len(),
{
    if b.len() == 0 {
        assert(a + b =~= a);
    } else {
        run_all_concat(s, a, b.drop_last());
        assert((a + b).drop_last() =~= a + b.drop_last());
    }
}

/// A screen of the same size with its cursor at `p`.
pub open spec fn same_screen_at(s: ScreenState, after: ScreenState, p: Pos) -> bool {
    &&& after.wf()
    &&& after.rows == s.rows
    &&& after.cols == s.cols
    &&& after.alt_screen == s.alt_screen
    &&& after.saved_cursor == s.saved_cursor
    &&& pos(after.cursor) == p
}

/// One vertical move that stays on the screen.
proof fn row_move(s: ScreenState, d: int)
    requires
        s.wf(),
        0 <= s.cursor.row + d < s.rows,
        d != 0,
    ensures
        run_all(s, row_tokens(d)) == s.moved(s.cursor.row + d, s.cursor.col as int),
{
    let tokens = row_tokens(d);
    let n = if d < 0 { -d } else { d };
    assert(tokens.drop_last() =~= Seq::<Token>::empty());
    assert(run_all(s, tokens.drop_last()) == s);
    let params = seq![seq![n as u16]];
    assert(crate::screen::param_at(params, 0) == Some(n as u16));
    assert(crate::screen::count_at(params, 0, 1) == n as u16);
}

/// One horizontal move that stays on the screen.
proof fn col_move(s: ScreenState, d: int)
    requires
        s.wf(),
        0 <= s.cursor.col + d < s.cols,
        d != 0,
    ensures
        run_all(s, col_tokens(d)) == s.moved(s.cursor.row as int, s.cursor.col + d),
{
    let tokens = col_tokens(d);
    let n = if d < 0 { -d } else { d };
    assert(tokens.drop_last() =~= Seq::<Token>::empty());
    assert(run_all(s, tokens.drop_last()) == s);
    let params = seq![seq![n as u16]];
    assert(crate::screen::param_at(params, 0) == Some(n as u16));
    assert(crate::screen::count_at(params, 0, 1) == n as u16);
}

/// Relative moves lead exactly to their target on the screen.
pub proof fn move_reaches_target(s: ScreenState, to: Pos)
    requires
        s.wf(),
        0 <= to.row < s.rows,
        0 <= to.col < s.cols,
        s.cursor.row < s.rows,
        s.cursor.col < s.cols,
    ensures
        same_screen_at(s, run_all(s, move_tokens(pos(s.cursor), to)), to),
        run_all(s, move_tokens(pos(s.cursor), to)).pending_wrap == (s.pending_wrap && to == pos(
            s.cursor,
        )),
{
    let dr = to.row - s.cursor.row;
    let dc = to.col - s.cursor.col;
    run_all_concat(s, row_tokens(dr), col_tokens(dc));
    let mid = run_all(s, row_tokens(dr));
    if dr != 0 {
        row_move(s, dr);
    }
    assert(same_screen_at(s, mid, Pos { row: to.row, col: s.cursor.col as int }));
    if dc != 0 {
        col_move(mid, dc);
    }
}

/// The moves that text can be written after lead to their target and leave no
/// wrap pending.
pub proof fn approach_reaches_target(s: ScreenState, to: Pos)
    requires
        s.wf(),
        s.cursor_on_screen(),
        0 <= to.row < s.rows,
        0 <= to.col < s.cols,
    ensures
        ({
            let after = run_all(s, approach_tokens(s.cols as int, pos(s.cursor), to));
            &&& same_screen_at(s, after, to)
            &&& after.cursor_on_screen()
            &&& !after.pending_wrap
        }),
{
    if pos(s.cursor) == to && to.col + 1 == s.cols {
        let tokens = seq![Token::Left(1), Token::Right(1)];
        let params = seq![seq![1u16]];
        assert(crate::screen::param_at(params, 0) == Some(1u16));
        assert(crate::screen::count_at(params, 0, 1) == 1);
        assert(tokens.drop_last() =~= seq![Token::Left(1)]);
        assert(tokens.drop_last().drop_last() =~= Seq::<Token>::empty());
        assert(run_all(s, tokens.drop_last().drop_last()) == s);
        assert(run_all(s, tokens.drop_last()) == run(s, Token::Left(1)));
        assert(run_all(s, tokens) == run(run(s, Token::Left(1)), Token::Right(1)));
    } else {
        move_reaches_target(s, to);
    }
}

/// Text that stays in the row leaves the cursor behind it, or in the last
/// column with a wrap pending where it fills the row.
pub proof fn text_advances(s: ScreenState, n: nat)
    requires
        s.wf(),
        s.cursor_on_screen(),
        s.cursor.col + n <= s.cols,
        !s.pending_wrap,
    ensures
        same_screen_at(
            s,
            printed(s, n),
            Pos { row: s.cursor.row as int, col: resting_col(s.cursor.col + n, s.cols as int) },
        ),
        printed(s, n).cursor_on_screen(),
        printed(s, n).pending_wrap == (s.cursor.col + n == s.cols),
    decreases n,
{
    if n > 0 {
        text_advances(s, (n - 1) as nat);
    }
}

pub proof fn printed_twice(s: ScreenState, a: nat, b: nat)
    ensures
        printed(printed(s, a), b) == printed(s, a + b),
    decreases b,
{
    if b > 0 {
        printed_twice(s, a, (b - 1) as nat);
    }
}

/// Whether a stroke stays on the screen and ends where it says.
pub open spec fn stroke_fits(s: Stroke, rows: int, cols: int) -> bool {
    &&& 0 <= s.row < rows
    &&& 0 <= s.col
    &&& s.end_col == s.col + s.text.len()
    &&& s.end_col <= cols
    &&& s.text.len() > 0
}

/// Of a text between two styles only the text moves the cursor.
proof fn styled_text_prints(s: ScreenState, open: Seq<char>, text: Seq<char>, close: Seq<char>)
    ensures
        run_all(s, seq![Token::Style(open), Token::Text(text), Token::Style(close)]) == printed(
            s,
            text.len(),
        ),
{
    let t0 = Token::Style(open);
    let t1 = Token::Text(text);
    let t2 = Token::Style(close);
    assert(seq![t0, t1, t2].drop_last() =~= seq![t0, t1]);
    assert(seq![t0, t1].drop_last() =~= seq![t0]);
    assert(seq![t0].drop_last() =~= Seq::<Token>::empty());
    assert(run_all(s, Seq::<Token>::empty()) == s);
    assert(run_all(s, seq![t0]) == s);
    assert(run_all(s, seq![t0, t1]) == printed(s, text.len()));
}

/// One stroke that fits leaves the cursor behind its text.
proof fn stroke_reaches_end(s: ScreenState, stroke: Stroke)
    requires
        s.wf(),
        s.cursor_on_screen(),
        stroke_fits(stroke, s.rows as int, s.cols as int),
    ensures
        ({
            let after = run_all(s, stroke_tokens(s.cols as int, pos(s.cursor), stroke));
            &&& same_screen_at(
                s,
                after,
                Pos { row: stroke.row, col: resting_col(stroke.end_col, s.cols as int) },
            )
            &&& after.cursor_on_screen()
        }),
{
    let target = Pos { row: stroke.row, col: stroke.col };
    let moves = approach_tokens(s.cols as int, pos(s.cursor), target);
    let parts = seq![
        Token::Style(stroke.open),
        Token::Text(stroke.text),
        Token::Style(stroke.close),
    ];
    run_all_concat(s, moves, parts);
    approach_reaches_target(s, target);
    let there = run_all(s, moves);
    styled_text_prints(there, stroke.open, stroke.text, stroke.close);
    text_advances(there, stroke.text.len());
}

/// Whether all of some strokes fit on a screen.
pub open spec fn drawable(s: ScreenState, strokes: Seq<Stroke>) -> bool {
    forall|i: int|
        0 <= i < strokes.len() ==> stroke_fits(
            #[trigger] strokes[i],
            s.rows as int,
            s.cols as int,
        )
}

/// After the strokes the cursor stands behind the last of them.
pub proof fn drawn_reaches_pen(s: ScreenState, strokes: Seq<Stroke>)
    requires
        s.wf(),
        s.cursor_on_screen(),
        drawable(s, strokes),
    ensures
        ({
            let cols = s.cols as int;
            let after = run_all(s, drawn(cols, pos(s.cursor), strokes));
            &&& same_screen_at(s, after, pen_after(cols, pos(s.cursor), strokes))
            &&& after.cursor_on_screen()
        }),
    decreases strokes.len(),
{
    if strokes.len() > 0 {
        let cols = s.cols as int;
        let home = pos(s.cursor);
        let rest = strokes.drop_last();
        let last = strokes.last();
        assert forall|i: int| 0 <= i < rest.len() implies stroke_fits(
            #[trigger] rest[i],
            s.rows as int,
            s.cols as int,
        ) by {
            assert(rest[i] == strokes[i]);
        }
        assert(stroke_fits(strokes[strokes.len() - 1], s.rows as int, s.cols as int));
        drawn_reaches_pen(s, rest);
        let mid = run_all(s, drawn(cols, home, rest));
        let pen = pen_after(cols, home, rest);
        run_all_concat(s, drawn(cols, home, rest), stroke_tokens(cols, pen, last));
        stroke_reaches_end(mid, last);
    }
}

/// Drawing leaves the cursor where the child left it, as long as every stroke
/// fits on the screen. A wrap that was pending is not pending any more; none
/// is pending that was not before.
pub proof fn drawing_restores_cursor(s: ScreenState, strokes: Seq<Stroke>)
    requires
        s.wf(),
        s.cursor_on_screen(),
        drawable(s, strokes),
    ensures
        ({
            let after = run_all(s, drawn_from(s.cols as int, pos(s.cursor), strokes));
            &&& same_screen_at(s, after, pos(s.cursor))
            &&& after.pending_wrap == (s.pending_wrap && strokes.len() == 0)
        }),
{
    let cols = s.cols as int;
    let home = pos(s.cursor);
    if strokes.len() > 0 {
        drawn_reaches_pen(s, strokes);
        let there = run_all(s, drawn(cols, home, strokes));
        let pen = pen_after(cols, home, strokes);
        run_all_concat(s, drawn(cols, home, strokes), approach_tokens(cols, pen, home));
        approach_reaches_target(there, home);
    }
}

} // verus!
