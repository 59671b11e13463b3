//! The screen as the child drew it: for every cell that was written, the
//! latest character and when it was written.

use crate::screen::CursorPos;
use std::collections::HashMap;
use vstd::prelude::*;
use vstd::std_specs::iter::IteratorSpec;

verus! {

broadcast use vstd::std_specs::hash::group_hash_axioms;

/// A written cell: its character, and a number that grows with every write.
#[derive(Debug, Clone, Copy, PartialEq, Eq, Structural)]
pub struct Cell {
    pub ch: char,
    pub seq: u64,
}

/// The number under which a cell is kept.
pub open spec fn cell_key(row: int, col: int) -> u32 {
    (row * 0x10000 + col) as u32
}

pub open spec fn key_row(key: u32) -> int {
    (key / 0x10000) as int
}

pub open spec fn key_col(key: u32) -> int {
    (key % 0x10000) as int
}

/// The cell at a position, where it was written.
pub open spec fn cell(grid: Map<u32, Cell>, row: int, col: int) -> Option<Cell> {
    if 0 <= row < 0x10000 && 0 <= col < 0x10000 && grid.contains_key(cell_key(row, col)) {
        Some(grid[cell_key(row, col)])
    } else {
        None
    }
}

/// The character at a position, where one was written.
pub open spec fn glyph(grid: Map<u32, Cell>, row: int, col: int) -> Option<char> {
    match cell(grid, row, col) {
        Some(c) => Some(c.ch),
        None => None,
    }
}

fn key_of(row: u16, col: u16) -> (r: u32)
    ensures
        r == cell_key(row as int, col as int),
        key_row(r) == row,
        key_col(r) == col,
{
    row as u32 * 0x10000 + col as u32
}

pub struct Grid {
    cells: HashMap<u32, Cell>,
}

impl View for Grid {
    type V = Map<u32, Cell>;

    closed spec fn view(&self) -> Map<u32, Cell> {
        self.cells@
    }
}

/// Distinct positions have distinct numbers.
pub proof fn cell_key_injective(row: int, col: int, row2: int, col2: int)
    requires
        0 <= row < 0x10000,
        0 <= col < 0x10000,
        0 <= row2 < 0x10000,
        0 <= col2 < 0x10000,
    ensures
        cell_key(row, col) == cell_key(row2, col2) <==> row == row2 && col == col2,
        key_row(cell_key(row, col)) == row,
        key_col(cell_key(row, col)) == col,
{
}

/// Every number belongs to a position.
pub proof fn key_position(key: u32)
    ensures
        0 <= key_row(key) < 0x10000,
        0 <= key_col(key) < 0x10000,
        cell_key(key_row(key), key_col(key)) == key,
{
}

/// Whether `after` is `before` without its oldest quarter: a quarter of the
/// cells is gone, and none of them is younger than one that stayed.
pub open spec fn is_pruned(before: Map<u32, Cell>, after: Map<u32, Cell>) -> bool {
    &&& after.dom().subset_of(before.dom())
    &&& forall|k: u32| #[trigger] after.contains_key(k) ==> after[k] == before[k]
    &&& after.dom().finite()
    &&& after.dom().len() == before.dom().len() - before.dom().len() / 4
    &&& forall|old_key: u32, kept: u32|
        #![trigger before.contains_key(old_key), after.contains_key(kept)]
        before.contains_key(old_key) && !after.contains_key(old_key) && after.contains_key(kept)
            ==> before[old_key].seq <= before[kept].seq
}

/// `slice::sort_by_key` orders a list by the chosen field and keeps its items.
#[verifier::external_body]
fn sort_by_seq(v: &mut Vec<(u32, u64)>)
    ensures
        final(v)@.to_multiset() == old(v)@.to_multiset(),
        forall|i: int, j: int|
            0 <= i <= j < final(v)@.len() ==> (#[trigger] final(v)@[i]).1 <= (#[trigger] final(v)@[j]).1,
{
    v.sort_by_key(|p| p.1)
}

impl Grid {
    pub fn new() -> (r: Self)
        ensures
            r@ == Map::<u32, Cell>::empty(),
    {
        Grid { cells: HashMap::new() }
    }

    pub fn get(&self, row: u16, col: u16) -> (r: Option<Cell>)
        ensures
            r == cell(self@, row as int, col as int),
    {
        match self.cells.get(&key_of(row, col)) {
            Some(c) => Some(*c),
            None => None,
        }
    }

    pub fn put(&mut self, row: u16, col: u16, c: Cell)
        ensures
            final(self)@ == old(self)@.insert(cell_key(row as int, col as int), c),
    {
        self.cells.insert(key_of(row, col), c);
    }

    pub fn remove(&mut self, row: u16, col: u16)
        ensures
            final(self)@ == old(self)@.remove(cell_key(row as int, col as int)),
    {
        self.cells.remove(&key_of(row, col));
    }

    pub fn clear(&mut self)
        ensures
            final(self)@ == Map::<u32, Cell>::empty(),
    {
        self.cells.clear();
    }

    pub fn len(&self) -> (r: usize)
        ensures
            r == self@.dom().len(),
            self@.dom().finite(),
    {
        self.cells.len()
    }

    /// Drops the oldest quarter of the cells.
    pub fn prune(&mut self)
        ensures
            is_pruned(old(self)@, final(self)@),
    {
        let count: usize = self.cells.len() / 4;
        let ghost before = self.cells@;
        let mut pairs: Vec<(u32, u64)> = Vec::new();
        for kv in it: self.cells.iter()
            invariant
                before == self.cells@,
                it.seq() == self.cells.iter().remaining(),
                it.seq().no_duplicates(),
                pairs@.len() == it.index(),
                forall|i: int|
                    0 <= i < pairs@.len() ==> (#[trigger] pairs@[i]).0 == *it.seq()[i].0
                        && pairs@[i].1 == it.seq()[i].1.seq,
        {
            pairs.push((*kv.0, kv.1.seq));
        }
        proof {
            let items = self.cells.iter().remaining();
            assert(pairs@.len() == items.len());
            assert(lists_all(pairs@, before)) by {
                assert forall|i: int, j: int|
                    0 <= i < pairs@.len() && 0 <= j < pairs@.len() && pairs@[i].0
                        == pairs@[j].0 implies i == j by {
                    assert(before.contains_key(*items[i].0));
                    assert(before.contains_key(*items[j].0));
                    assert(items[i] == items[j]);
                }
                assert forall|i: int| 0 <= i < pairs@.len() implies before.contains_key(
                    (#[trigger] pairs@[i]).0,
                ) && before[pairs@[i].0].seq == pairs@[i].1 by {
                    assert(before.contains_key(*items[i].0));
                }
                assert forall|k: u32| before.contains_key(k) implies exists|i: int|
                    0 <= i < pairs@.len() && (#[trigger] pairs@[i]).0 == k by {
                    assert(items.contains((&k, &before[k])));
                    let i = items.index_of((&k, &before[k]));
                    assert(pairs@[i].0 == k);
                }
            }
        }
        let ghost unsorted = pairs@;
        sort_by_seq(&mut pairs);
        proof {
            lists_all_permuted(unsorted, pairs@, before);
            lists_all_len(pairs@, before);
        }
        let mut i: usize = 0;
        while i < count
            invariant
                count == before.dom().len() / 4,
                before.dom().finite(),
                lists_all(pairs@, before),
                pairs@.len() == before.dom().len(),
                i <= count <= pairs@.len(),
                self.cells@.dom().finite(),
                self.cells@.dom().len() == before.dom().len() - i,
                forall|k: u32| #[trigger]
                    self.cells@.contains_key(k) ==> before.contains_key(k) && self.cells@[k]
                        == before[k],
                forall|j: int|
                    0 <= j < pairs@.len() ==> (self.cells@.contains_key((#[trigger] pairs@[j]).0)
                        <==> i <= j),
            decreases count - i,
        {
            self.cells.remove(&pairs[i].0);
            i += 1;
        }
        proof {
            let after = self.cells@;
            assert forall|old_key: u32, kept: u32|
                #![trigger before.contains_key(old_key), after.contains_key(kept)]
                before.contains_key(old_key) && !after.contains_key(old_key)
                    && after.contains_key(kept) implies before[old_key].seq
                <= before[kept].seq by {
                let a = choose|a: int| 0 <= a < pairs@.len() && (#[trigger] pairs@[a]).0 == old_key;
                let b = choose|b: int| 0 <= b < pairs@.len() && (#[trigger] pairs@[b]).0 == kept;
                assert(pairs@[a].1 <= pairs@[b].1);
            }
        }
    }
}

/// Whether `pairs` lists every cell once, by its number, with its age.
spec fn lists_all(pairs: Seq<(u32, u64)>, grid: Map<u32, Cell>) -> bool {
    &&& forall|i: int, j: int|
        0 <= i < pairs.len() && 0 <= j < pairs.len() && (#[trigger] pairs[i]).0 == (
        #[trigger] pairs[j]).0 ==> i == j
    &&& forall|i: int|
        0 <= i < pairs.len() ==> grid.contains_key((#[trigger] pairs[i]).0)
            && grid[pairs[i].0].seq == pairs[i].1
    &&& forall|k: u32|
        grid.contains_key(k) ==> exists|i: int|
            0 <= i < pairs.len() && (#[trigger] pairs[i]).0 == k
}

/// The order of such a list does not matter.
proof fn lists_all_permuted(a: Seq<(u32, u64)>, b: Seq<(u32, u64)>, grid: Map<u32, Cell>)
    requires
        lists_all(a, grid),
        a.to_multiset() == b.to_multiset(),
    ensures
        lists_all(b, grid),
{
    a.to_multiset_ensures();
    b.to_multiset_ensures();
    assert(a.no_duplicates());
    a.lemma_multiset_has_no_duplicates();
    b.lemma_multiset_has_no_duplicates_conv();
    assert forall|x: (u32, u64)| a.contains(x) == b.contains(x) by {
        assert(a.contains(x) <==> a.to_multiset().count(x) > 0);
        assert(b.contains(x) <==> b.to_multiset().count(x) > 0);
    }
    assert forall|i: int, j: int|
        0 <= i < b.len() && 0 <= j < b.len() && (#[trigger] b[i]).0 == (
        #[trigger] b[j]).0 implies i == j by {
        assert(b.contains(b[i]));
        assert(b.contains(b[j]));
        let p = a.index_of(b[i]);
        let q = a.index_of(b[j]);
        assert(a[p].0 == a[q].0);
    }
    assert forall|i: int| 0 <= i < b.len() implies grid.contains_key((#[trigger] b[i]).0)
        && grid[b[i].0].seq == b[i].1 by {
        assert(b.contains(b[i]));
        let p = a.index_of(b[i]);
        assert(a[p] == b[i]);
    }
    assert forall|k: u32| grid.contains_key(k) implies exists|i: int|
        0 <= i < b.len() && (#[trigger] b[i]).0 == k by {
        let p = choose|p: int| 0 <= p < a.len() && (#[trigger] a[p]).0 == k;
        assert(a.contains(a[p]));
        let i = b.index_of(a[p]);
        assert(b[i].0 == k);
    }
}

/// Such a list is as long as there are cells.
proof fn lists_all_len(pairs: Seq<(u32, u64)>, grid: Map<u32, Cell>)
    requires
        lists_all(pairs, grid),
    ensures
        grid.dom().finite(),
        pairs.len() == grid.dom().len(),
{
    let keys = pairs.map_values(|p: (u32, u64)| p.0);
    assert(keys.no_duplicates());
    keys.unique_seq_to_set();
    vstd::seq_lib::seq_to_set_is_finite(keys);
    assert(keys.to_set() =~= grid.dom()) by {
        assert forall|k: u32| keys.to_set().contains(k) <==> grid.dom().contains(k) by {
            if grid.contains_key(k) {
                let i = choose|i: int| 0 <= i < pairs.len() && (#[trigger] pairs[i]).0 == k;
                assert(keys[i] == k);
            }
            if keys.contains(k) {
                let i = keys.index_of(k);
                assert(pairs[i].0 == k);
            }
        }
    }
}

/// Whether `c` is a space or a no-break space.
pub open spec fn is_space(c: char) -> bool {
    c == ' ' || c == '\u{a0}'
}

/// Whether two characters look the same: they are equal, or both are spaces.
pub open spec fn same_glyph(a: char, b: char) -> bool {
    a == b || (is_space(a) && is_space(b))
}

/// Whether `ch` can be what a cell shows; a cell that was never written shows
/// a space.
pub open spec fn fits(grid: Map<u32, Cell>, row: int, col: int, ch: char) -> bool {
    match cell(grid, row, col) {
        Some(c) => same_glyph(c.ch, ch),
        None => is_space(ch),
    }
}

/// When a cell was written; zero where it never was.
pub open spec fn seq_at(grid: Map<u32, Cell>, row: int, col: int) -> int {
    match cell(grid, row, col) {
        Some(c) => c.seq as int,
        None => 0,
    }
}

pub open spec fn later(a: int, b: int) -> int {
    if a < b {
        b
    } else {
        a
    }
}

/// How far a text has been followed on the screen: the next cell, the column
/// where rows go on, and the latest write among the cells so far.
pub struct Walk {
    pub row: int,
    pub col: int,
    pub row_start: int,
    pub seq: int,
}

/// `ch` found at a cell.
pub open spec fn found_at(
    grid: Map<u32, Cell>,
    walk: Walk,
    row: int,
    col: int,
    row_start: int,
) -> Walk {
    Walk { row, col: col + 1, row_start, seq: later(walk.seq, seq_at(grid, row, col)) }
}

/// One more character followed. At the right edge the text goes on in the
/// next row, where that row's text starts or in column zero. A cell that was
/// never written ends the row early, and the text goes on in the next row at
/// the first column of the text or in column zero. A cell with another
/// character is a mismatch.
pub open spec fn walked_on(
    grid: Map<u32, Cell>,
    cols: int,
    base_col: int,
    walk: Walk,
    ch: char,
) -> Option<Walk> {
    let wrapped = walk.col >= cols;
    let row = if wrapped {
        walk.row + 1
    } else {
        walk.row
    };
    let col = if wrapped {
        walk.row_start
    } else {
        walk.col
    };
    if row >= 0x10000 {
        None
    } else if fits(grid, row, col, ch) {
        Some(found_at(grid, walk, row, col, walk.row_start))
    } else if wrapped && walk.row_start > 0 && fits(grid, row, 0, ch) {
        Some(found_at(grid, walk, row, 0, 0))
    } else if cell(grid, row, col) is Some || row + 1 >= 0x10000 {
        None
    } else if fits(grid, row + 1, base_col, ch) {
        Some(found_at(grid, walk, row + 1, base_col, base_col))
    } else if base_col > 0 && fits(grid, row + 1, 0, ch) {
        Some(found_at(grid, walk, row + 1, 0, 0))
    } else {
        None
    }
}

/// The first `k` characters of a text followed from its first cell.
pub open spec fn walked(
    grid: Map<u32, Cell>,
    cols: int,
    text: Seq<char>,
    row: int,
    col: int,
    k: int,
) -> Option<Walk>
    decreases k,
{
    if k <= 1 {
        Some(Walk { row, col: col + 1, row_start: col, seq: seq_at(grid, row, col) })
    } else {
        match walked(grid, cols, text, row, col, k - 1) {
            Some(w) => walked_on(grid, cols, col, w, text[k - 1]),
            None => None,
        }
    }
}

/// When the latest cell of a text that starts at a written cell was written;
/// none where the screen does not show the text there.
pub open spec fn shown_at(
    grid: Map<u32, Cell>,
    cols: int,
    text: Seq<char>,
    row: int,
    col: int,
) -> Option<int> {
    match cell(grid, row, col) {
        Some(c) => if same_glyph(c.ch, text[0]) {
            match walked(grid, cols, text, row, col, text.len() as int) {
                Some(w) => Some(w.seq),
                None => None,
            }
        } else {
            None
        },
        None => None,
    }
}

/// Whether the cell `key` is where a text is shown most recently, and the
/// topmost and leftmost of several such cells.
pub open spec fn is_latest_shown(
    grid: Map<u32, Cell>,
    cols: int,
    text: Seq<char>,
    key: u32,
) -> bool {
    &&& shown_at(grid, cols, text, key_row(key), key_col(key)) is Some
    &&& forall|other: u32|
        #![trigger key_row(other)]
        (shown_at(grid, cols, text, key_row(other), key_col(other)) matches Some(s) ==> {
            let best = shown_at(grid, cols, text, key_row(key), key_col(key))->0;
            s < best || (s == best && key <= other)
        })
}

/// Where a text is shown most recently.
pub open spec fn latest_shown(grid: Map<u32, Cell>, text: Seq<char>, cols: int) -> Option<CursorPos> {
    if text.len() > 0 && cols > 0 && exists|key: u32| is_latest_shown(grid, cols, text, key) {
        let key = choose|key: u32| is_latest_shown(grid, cols, text, key);
        Some(CursorPos { row: key_row(key) as u16, col: key_col(key) as u16 })
    } else {
        None
    }
}

pub fn is_space_char(c: char) -> (r: bool)
    ensures
        r == is_space(c),
{
    c == ' ' || c == '\u{a0}'
}

/// Equality that treats space and no-break space alike: some hosts draw the
/// one where the buffer has the other.
pub fn chars_equiv(a: char, b: char) -> (r: bool)
    ensures
        r == same_glyph(a, b),
{
    a == b || (is_space_char(a) && is_space_char(b))
}

impl Grid {
    pub fn fits_cell(&self, row: u16, col: u16, ch: char) -> (r: bool)
        ensures
            r == fits(self@, row as int, col as int, ch),
    {
        match self.get(row, col) {
            Some(c) => chars_equiv(c.ch, ch),
            None => is_space_char(ch),
        }
    }

    fn later_seq(&self, seq: u64, row: u16, col: u16) -> (r: u64)
        ensures
            r == later(seq as int, seq_at(self@, row as int, col as int)),
    {
        match self.get(row, col) {
            Some(c) => if seq < c.seq {
                c.seq
            } else {
                seq
            },
            None => seq,
        }
    }

    /// Follows `text` from a written cell that shows its first character.
    fn follow(&self, text: &[char], cols: u16, start_row: u16, base_col: u16) -> (r: Option<u64>)
        requires
            text@.len() > 0,
        ensures
            match r {
                Some(s) => walked(
                    self@,
                    cols as int,
                    text@,
                    start_row as int,
                    base_col as int,
                    text@.len() as int,
                ) matches Some(w) && w.seq == s,
                None => walked(
                    self@,
                    cols as int,
                    text@,
                    start_row as int,
                    base_col as int,
                    text@.len() as int,
                ) is None,
            },
    {
        let mut row: u16 = start_row;
        let mut col: u32 = base_col as u32 + 1;
        let mut row_start: u16 = base_col;
        let mut seq: u64 = self.later_seq(0, start_row, base_col);
        let mut k: usize = 1;
        while k < text.len()
            invariant
                1 <= k <= text@.len(),
                col <= 0x10000,
                walked(
                    self@,
                    cols as int,
                    text@,
                    start_row as int,
                    base_col as int,
                    k as int,
                ) == Some(
                    Walk {
                        row: row as int,
                        col: col as int,
                        row_start: row_start as int,
                        seq: seq as int,
                    },
                ),
            decreases text@.len() - k,
        {
            let ch = text[k];
            let ghost on = walked_on(
                self@,
                cols as int,
                base_col as int,
                Walk {
                    row: row as int,
                    col: col as int,
                    row_start: row_start as int,
                    seq: seq as int,
                },
                ch,
            );
            proof {
                assert(walked(
                    self@,
                    cols as int,
                    text@,
                    start_row as int,
                    base_col as int,
                    k + 1,
                ) == on);
                if on is None {
                    walked_none(
                        self@,
                        cols as int,
                        text@,
                        start_row as int,
                        base_col as int,
                        k + 1,
                        text@.len() as int,
                    );
                }
            }
            let wrapped = col >= cols as u32;
            if wrapped {
                if row == 0xFFFF {
                    return None;
                }
                row = row + 1;
                col = row_start as u32;
            }
            let c: u16 = col as u16;
            if self.fits_cell(row, c, ch) {
                seq = self.later_seq(seq, row, c);
                col = col + 1;
            } else if wrapped && row_start > 0 && self.fits_cell(row, 0, ch) {
                row_start = 0;
                seq = self.later_seq(seq, row, 0);
                col = 1;
            } else {
                if self.get(row, c).is_some() || row == 0xFFFF {
                    return None;
                }
                row = row + 1;
                if self.fits_cell(row, base_col, ch) {
                    row_start = base_col;
                    seq = self.later_seq(seq, row, base_col);
                    col = base_col as u32 + 1;
                } else if base_col > 0 && self.fits_cell(row, 0, ch) {
                    row_start = 0;
                    seq = self.later_seq(seq, row, 0);
                    col = 1;
                } else {
                    return None;
                }
            }
            k += 1;
        }
        Some(seq)
    }

    /// Looks for the most recent place where the screen shows `text`. Cells
    /// that were never written count as spaces, since some hosts move the
    /// cursor between words instead of printing a space, and text may wrap at
    /// the right edge or, by words or line breaks of the host, before it.
    pub fn find_text(&self, text: &[char], cols: u16) -> (r: Option<CursorPos>)
        ensures
            r == latest_shown(self@, text@, cols as int),
    {
        if text.len() == 0 || cols == 0 {
            return None;
        }
        let ghost g = self@;
        let ghost n = cols as int;
        let mut best: Option<(u32, u64)> = None;
        for key_ref in it: self.cells.keys()
            invariant
                g == self@,
                n == cols as int,
                text@.len() > 0,
                it.seq() == self.cells.keys().remaining(),
                match best {
                    Some(b) => shown_at(g, n, text@, key_row(b.0), key_col(b.0)) == Some(
                        b.1 as int,
                    ),
                    None => true,
                },
                forall|i: int|
                    0 <= i < it.index() ==> beaten(g, n, text@, *(#[trigger] it.seq()[i]), best),
        {
            let key: u32 = *key_ref;
            let row: u16 = (key / 0x10000) as u16;
            let col: u16 = (key % 0x10000) as u16;
            let ghost before = best;
            proof {
                key_position(key);
                assert(it.seq()[it.index() as int] == key_ref);
                assert(self.cells.keys().remaining().unref().contains(key)) by {
                    assert(self.cells.keys().remaining().unref()[it.index() as int] == key);
                }
                assert(self.cells@.dom().contains(key));
            }
            if let Some(c) = self.get(row, col) {
                if chars_equiv(c.ch, text[0]) {
                    if let Some(seq) = self.follow(text, cols, row, col) {
                        let better = match best {
                            Some(b) => seq > b.1 || (seq == b.1 && key < b.0),
                            None => true,
                        };
                        if better {
                            best = Some((key, seq));
                        }
                    }
                }
            }
        }
        proof {
            assert forall|key: u32| beaten(g, n, text@, key, best) by {
                if shown_at(g, n, text@, key_row(key), key_col(key)) is Some {
                    key_position(key);
                    assert(g.contains_key(key));
                    let keys = self.cells.keys().remaining();
                    assert(keys.unref().to_set().contains(key));
                    let i = keys.unref().index_of(key);
                    assert(beaten(g, n, text@, *keys[i], best));
                }
            }
        }
        match best {
            Some(b) => {
                proof {
                    assert(is_latest_shown(g, n, text@, b.0)) by {
                        assert forall|other: u32|
                            #![trigger key_row(other)]
                            (shown_at(g, n, text@, key_row(other), key_col(other)) matches Some(s)
                                ==> s < b.1 || (s == b.1 && b.0 <= other)) by {
                            assert(beaten(g, n, text@, other, best));
                        }
                    }
                    let c = choose|key: u32| is_latest_shown(g, n, text@, key);
                    assert(key_row(c) == key_row(c));
                    assert(key_row(b.0) == key_row(b.0));
                    assert(c == b.0);
                    key_position(b.0);
                }
                Some(CursorPos { row: (b.0 / 0x10000) as u16, col: (b.0 % 0x10000) as u16 })
            },
            None => {
                proof {
                    assert forall|key: u32| !is_latest_shown(g, n, text@, key) by {
                        assert(beaten(g, n, text@, key, best));
                    }
                }
                None
            },
        }
    }
}

/// Whether the text is not shown at `key`, or `best` is at least as good.
spec fn beaten(
    grid: Map<u32, Cell>,
    cols: int,
    text: Seq<char>,
    key: u32,
    best: Option<(u32, u64)>,
) -> bool {
    match shown_at(grid, cols, text, key_row(key), key_col(key)) {
        Some(s) => match best {
            Some(b) => s < b.1 || (s == b.1 && b.0 <= key),
            None => false,
        },
        None => true,
    }
}

/// What was lost on the way stays lost.
pub proof fn walked_none(
    grid: Map<u32, Cell>,
    cols: int,
    text: Seq<char>,
    row: int,
    col: int,
    k: int,
    n: int,
)
    requires
        1 <= k <= n,
        walked(grid, cols, text, row, col, k) is None,
    ensures
        walked(grid, cols, text, row, col, n) is None,
    decreases n - k,
{
    if k < n {
        assert(walked(grid, cols, text, row, col, k + 1) is None);
        walked_none(grid, cols, text, row, col, k + 1, n);
    }
}

/// Whether a row shows a text cell by cell from a column on, within `cols`
/// columns.
pub open spec fn in_a_row(
    grid: Map<u32, Cell>,
    cols: int,
    text: Seq<char>,
    row: int,
    col: int,
) -> bool {
    &&& 0 <= row < 0x10000
    &&& 0 <= col
    &&& col + text.len() <= cols < 0x10000
    &&& forall|i: int|
        #![trigger text[i]]
        0 <= i < text.len() ==> (cell(grid, row, col + i) matches Some(c) && same_glyph(
            c.ch,
            text[i],
        ))
}

/// A text that a row shows cell by cell is followed to its end.
proof fn in_a_row_is_walked(
    grid: Map<u32, Cell>,
    cols: int,
    text: Seq<char>,
    row: int,
    col: int,
    k: int,
)
    requires
        in_a_row(grid, cols, text, row, col),
        1 <= k <= text.len(),
    ensures
        walked(grid, cols, text, row, col, k) matches Some(w) && w.row == row && w.col == col + k
            && w.row_start == col,
    decreases k,
{
    if k > 1 {
        in_a_row_is_walked(grid, cols, text, row, col, k - 1);
        assert(fits(grid, row, col + k - 1, text[k - 1]));
    }
}

/// Whether a text is shown at `b` more recently than at `k`, or as recently
/// and not further down or to the right.
spec fn precedes(grid: Map<u32, Cell>, cols: int, text: Seq<char>, b: u32, k: u32) -> bool {
    let best = shown_at(grid, cols, text, key_row(b), key_col(b))->0;
    let s = shown_at(grid, cols, text, key_row(k), key_col(k))->0;
    s < best || (s == best && b <= k)
}

spec fn is_first_of(
    grid: Map<u32, Cell>,
    cols: int,
    text: Seq<char>,
    keys: Set<u32>,
    b: u32,
) -> bool {
    keys.contains(b) && forall|k: u32| keys.contains(k) ==> #[trigger] precedes(
        grid,
        cols,
        text,
        b,
        k,
    )
}

/// Among finitely many cells one shows a text most recently.
proof fn latest_exists(grid: Map<u32, Cell>, cols: int, text: Seq<char>, keys: Set<u32>, key: u32)
    requires
        keys.finite(),
        keys.contains(key),
    ensures
        exists|b: u32| is_first_of(grid, cols, text, keys, b),
    decreases keys.len(),
{
    let rest = keys.remove(key);
    if rest.is_empty() {
        assert forall|k: u32| keys.contains(k) implies #[trigger] precedes(
            grid,
            cols,
            text,
            key,
            k,
        ) by {
            if k != key {
                assert(rest.contains(k));
            }
        }
        assert(is_first_of(grid, cols, text, keys, key));
    } else {
        let other = rest.choose();
        latest_exists(grid, cols, text, rest, other);
        let b = choose|b: u32| is_first_of(grid, cols, text, rest, b);
        let win = if precedes(grid, cols, text, b, key) {
            b
        } else {
            key
        };
        assert forall|k: u32| keys.contains(k) implies #[trigger] precedes(
            grid,
            cols,
            text,
            win,
            k,
        ) by {
            if k != key {
                assert(rest.contains(k));
                assert(precedes(grid, cols, text, b, k));
            }
        }
        assert(is_first_of(grid, cols, text, keys, win));
    }
}

/// A text that the screen shows somewhere is found, and no other place shows
/// it more recently than the one found.
pub proof fn shown_text_is_found(
    grid: Map<u32, Cell>,
    cols: int,
    text: Seq<char>,
    row: int,
    col: int,
)
    requires
        grid.dom().finite(),
        text.len() > 0,
        0 < cols,
        shown_at(grid, cols, text, row, col) is Some,
    ensures
        latest_shown(grid, text, cols) matches Some(p) && shown_at(
            grid,
            cols,
            text,
            p.row as int,
            p.col as int,
        ) matches Some(s) && shown_at(grid, cols, text, row, col)->0 <= s,
{
    let keys = grid.dom().filter(
        |k: u32| shown_at(grid, cols, text, key_row(k), key_col(k)) is Some,
    );
    let key = cell_key(row, col);
    cell_key_injective(row, col, row, col);
    grid.dom().lemma_len_filter(
        |k: u32| shown_at(grid, cols, text, key_row(k), key_col(k)) is Some,
    );
    assert(keys.contains(key));
    latest_exists(grid, cols, text, keys, key);
    let b = choose|b: u32| is_first_of(grid, cols, text, keys, b);
    assert(is_latest_shown(grid, cols, text, b)) by {
        assert forall|other: u32|
            #![trigger key_row(other)]
            (shown_at(grid, cols, text, key_row(other), key_col(other)) matches Some(s) ==> {
                let best = shown_at(grid, cols, text, key_row(b), key_col(b))->0;
                s < best || (s == best && b <= other)
            }) by {
            if shown_at(grid, cols, text, key_row(other), key_col(other)) is Some {
                key_position(other);
                assert(keys.contains(other));
                assert(precedes(grid, cols, text, b, other));
            }
        }
    }
    let c = choose|c: u32| is_latest_shown(grid, cols, text, c);
    key_position(c);
    assert(key_row(key) == row);
}

/// A text that a row shows cell by cell is found.
pub proof fn row_text_is_found(
    grid: Map<u32, Cell>,
    cols: int,
    text: Seq<char>,
    row: int,
    col: int,
)
    requires
        grid.dom().finite(),
        text.len() > 0,
        in_a_row(grid, cols, text, row, col),
    ensures
        shown_at(grid, cols, text, row, col) is Some,
        latest_shown(grid, text, cols) is Some,
{
    in_a_row_is_walked(grid, cols, text, row, col, text.len() as int);
    assert(same_glyph(cell(grid, row, col + 0)->0.ch, text[0]));
    shown_text_is_found(grid, cols, text, row, col);
}

/// A space and a no-break space count as the same character; any other
/// character only as itself.
pub proof fn only_spaces_stand_for_each_other(a: char, b: char)
    ensures
        same_glyph(a, b) <==> a == b || ((a == ' ' || a == '\u{a0}') && (b == ' ' || b
            == '\u{a0}')),
{
}

/// Whether a cell shows a character, where one that was never written shows a
/// space.
pub open spec fn shows(grid: Map<u32, Cell>, row: int, col: int, ch: char) -> bool {
    match glyph(grid, row, col) {
        Some(c) => c == ch || ((c == ' ' || c == '\u{a0}') && (ch == ' ' || ch == '\u{a0}')),
        None => ch == ' ' || ch == '\u{a0}',
    }
}

/// Whether `text` stands in the cells of a row from a column on, within `cols`
/// columns.
pub open spec fn stands_at(
    grid: Map<u32, Cell>,
    cols: int,
    text: Seq<char>,
    row: int,
    col: int,
) -> bool {
    &&& 0 <= row < 0x10000
    &&& 0 <= col
    &&& col + text.len() <= cols < 0x10000
    &&& forall|i: int|
        #![trigger text[i]]
        0 <= i < text.len() ==> shows(grid, row, col + i, text[i])
}

proof fn standing_text_is_walked(
    grid: Map<u32, Cell>,
    cols: int,
    text: Seq<char>,
    row: int,
    col: int,
    n: int,
    k: int,
)
    requires
        1 <= k <= n <= text.len(),
        stands_at(grid, cols, text.take(n), row, col),
    ensures
        walked(grid, cols, text, row, col, k) matches Some(w) && w.row == row && w.col == col + k
            && w.row_start == col,
    decreases k,
{
    if k > 1 {
        standing_text_is_walked(grid, cols, text, row, col, n, k - 1);
        assert(text.take(n)[k - 1] == text[k - 1]);
        assert(shows(grid, row, col + (k - 1), text[k - 1]));
        assert(fits(grid, row, col + k - 1, text[k - 1]));
    }
}

/// Text that stands in a row is found, where the cells between its words may
/// never have been written.
pub proof fn standing_text_is_found(
    grid: Map<u32, Cell>,
    cols: int,
    text: Seq<char>,
    row: int,
    col: int,
)
    requires
        grid.dom().finite(),
        text.len() > 0,
        stands_at(grid, cols, text, row, col),
        glyph(grid, row, col) is Some,
    ensures
        shown_at(grid, cols, text, row, col) is Some,
        latest_shown(grid, text, cols) is Some,
{
    let n = text.len() as int;
    assert(text.take(n) =~= text);
    standing_text_is_walked(grid, cols, text, row, col, n, n);
    assert(shows(grid, row, col + 0, text[0]));
    shown_text_is_found(grid, cols, text, row, col);
}

/// Text that runs up to the right edge and goes on in the next row, in the
/// column where it began or in the first column, is found.
pub proof fn wrapped_text_is_found(
    grid: Map<u32, Cell>,
    cols: int,
    first: Seq<char>,
    second: Seq<char>,
    row: int,
    col: int,
    next: int,
)
    requires
        grid.dom().finite(),
        first.len() > 0,
        second.len() > 0,
        stands_at(grid, cols, first, row, col),
        col + first.len() == cols,
        glyph(grid, row, col) is Some,
        stands_at(grid, cols, second, row + 1, next),
        next == col || (next == 0 && !shows(grid, row + 1, col, second[0])),
    ensures
        shown_at(grid, cols, first + second, row, col) is Some,
        latest_shown(grid, first + second, cols) is Some,
{
    let text = first + second;
    let n = first.len() as int;
    assert(text.take(n) =~= first);
    standing_text_is_walked(grid, cols, text, row, col, n, n);
    wrapped_walk(grid, cols, first, second, row, col, next, second.len() as int);
    assert(text[0] == first[0]);
    assert(shows(grid, row, col + 0, first[0]));
    shown_text_is_found(grid, cols, text, row, col);
}

proof fn wrapped_walk(
    grid: Map<u32, Cell>,
    cols: int,
    first: Seq<char>,
    second: Seq<char>,
    row: int,
    col: int,
    next: int,
    k: int,
)
    requires
        1 <= k <= second.len(),
        first.len() > 0,
        stands_at(grid, cols, first, row, col),
        col + first.len() == cols,
        stands_at(grid, cols, second, row + 1, next),
        next == col || (next == 0 && !shows(grid, row + 1, col, second[0])),
    ensures
        walked(grid, cols, first + second, row, col, first.len() + k) matches Some(w) && w.row
            == row + 1 && w.col == next + k && w.row_start == next,
    decreases k,
{
    let text = first + second;
    let n = first.len() as int;
    assert(text[n + k - 1] == second[k - 1]);
    assert(shows(grid, row + 1, next + (k - 1), second[k - 1]));
    assert(fits(grid, row + 1, next + k - 1, second[k - 1]));
    if k == 1 {
        assert(text.take(n) =~= first);
        standing_text_is_walked(grid, cols, text, row, col, n, n);
        let w = walked(grid, cols, text, row, col, n)->0;
        assert(walked(grid, cols, text, row, col, n + 1) == walked_on(grid, cols, col, w, second[0]));
    } else {
        wrapped_walk(grid, cols, first, second, row, col, next, k - 1);
        let w = walked(grid, cols, text, row, col, n + k - 1)->0;
        assert(walked(grid, cols, text, row, col, n + k) == walked_on(
            grid,
            cols,
            col,
            w,
            second[k - 1],
        ));
    }
}

/// The cell of the character at `k` of a text that is followed from a cell on.
pub open spec fn place_of(
    grid: Map<u32, Cell>,
    cols: int,
    text: Seq<char>,
    row: int,
    col: int,
    k: int,
) -> (int, int) {
    let w = walked(grid, cols, text, row, col, k + 1)->0;
    (w.row, w.col - 1)
}

/// What is found is there: from the cell on, each character of the text is
/// shown by its cell, rows never go back, in a row each character stands right
/// of the one before, and the time of the place is that of its latest cell.
pub proof fn found_text_is_shown(
    grid: Map<u32, Cell>,
    cols: int,
    text: Seq<char>,
    row: int,
    col: int,
    k: int,
)
    requires
        shown_at(grid, cols, text, row, col) is Some,
        0 <= k < text.len(),
    ensures
        ({
            let (r, c) = place_of(grid, cols, text, row, col, k);
            let time = shown_at(grid, cols, text, row, col)->0;
            &&& shows(grid, r, c, text[k])
            &&& k == 0 ==> r == row && c == col
            &&& k > 0 ==> {
                let (r0, c0) = place_of(grid, cols, text, row, col, k - 1);
                r0 <= r && (r0 == r ==> c == c0 + 1)
            }
            &&& glyph(grid, r, c) is Some ==> grid[cell_key(r, c)].seq <= time
        }),
{
    let n = text.len() as int;
    walk_to(grid, cols, text, row, col, k + 1, n);
    if k == 0 {
        assert(same_glyph(cell(grid, row, col)->0.ch, text[0]));
    } else {
        walk_to(grid, cols, text, row, col, k, k + 1);
        let w = walked(grid, cols, text, row, col, k)->0;
        assert(walked(grid, cols, text, row, col, k + 1) == walked_on(grid, cols, col, w, text[k]));
    }
    last_seq_counts(grid, cols, text, row, col, k + 1);
}

/// A walk that reaches its end has passed all cells before, and the latest
/// write among them only grows.
proof fn walk_to(
    grid: Map<u32, Cell>,
    cols: int,
    text: Seq<char>,
    row: int,
    col: int,
    k: int,
    n: int,
)
    requires
        1 <= k <= n,
        walked(grid, cols, text, row, col, n) is Some,
    ensures
        walked(grid, cols, text, row, col, k) is Some,
        walked(grid, cols, text, row, col, k)->0.seq <= walked(grid, cols, text, row, col, n)->0.seq,
    decreases n - k,
{
    if k < n {
        walk_to(grid, cols, text, row, col, k, n - 1);
    }
}

proof fn last_seq_counts(
    grid: Map<u32, Cell>,
    cols: int,
    text: Seq<char>,
    row: int,
    col: int,
    k: int,
)
    requires
        1 <= k,
        walked(grid, cols, text, row, col, k) is Some,
    ensures
        ({
            let w = walked(grid, cols, text, row, col, k)->0;
            seq_at(grid, w.row, w.col - 1) <= w.seq
        }),
{
    if k > 1 {
        assert(walked(grid, cols, text, row, col, k - 1) is Some);
    }
}

/// The time of a place is that of one of its cells.
pub proof fn time_is_that_of_a_cell(
    grid: Map<u32, Cell>,
    cols: int,
    text: Seq<char>,
    row: int,
    col: int,
)
    requires
        text.len() > 0,
        shown_at(grid, cols, text, row, col) is Some,
    ensures
        exists|k: int|
            0 <= k < text.len() && ({
                let (r, c) = #[trigger] place_of(grid, cols, text, row, col, k);
                glyph(grid, r, c) is Some && grid[cell_key(r, c)].seq == shown_at(
                    grid,
                    cols,
                    text,
                    row,
                    col,
                )->0
            }),
{
    time_of_walk(grid, cols, text, row, col, text.len() as int);
}

proof fn time_of_walk(
    grid: Map<u32, Cell>,
    cols: int,
    text: Seq<char>,
    row: int,
    col: int,
    n: int,
)
    requires
        1 <= n,
        cell(grid, row, col) is Some,
        walked(grid, cols, text, row, col, n) is Some,
    ensures
        exists|k: int|
            0 <= k < n && ({
                let (r, c) = #[trigger] place_of(grid, cols, text, row, col, k);
                glyph(grid, r, c) is Some && grid[cell_key(r, c)].seq == walked(
                    grid,
                    cols,
                    text,
                    row,
                    col,
                    n,
                )->0.seq
            }),
    decreases n,
{
    let w = walked(grid, cols, text, row, col, n)->0;
    if n == 1 {
        let p = place_of(grid, cols, text, row, col, 0);
        assert(p == (row, col));
    } else {
        time_of_walk(grid, cols, text, row, col, n - 1);
        let before = walked(grid, cols, text, row, col, n - 1)->0;
        if w.seq == before.seq {
            let k = choose|k: int|
                0 <= k < n - 1 && ({
                    let (r, c) = #[trigger] place_of(grid, cols, text, row, col, k);
                    glyph(grid, r, c) is Some && grid[cell_key(r, c)].seq == before.seq
                });
            let q = place_of(grid, cols, text, row, col, k);
            assert(glyph(grid, q.0, q.1) is Some);
        } else {
            let p = place_of(grid, cols, text, row, col, n - 1);
            assert(p == (w.row, w.col - 1));
        }
    }
}

/// In a row, the character at `k` of a text stands `k` columns on.
pub proof fn row_place(
    grid: Map<u32, Cell>,
    cols: int,
    text: Seq<char>,
    row: int,
    col: int,
    k: int,
)
    requires
        in_a_row(grid, cols, text, row, col),
        0 <= k < text.len(),
    ensures
        place_of(grid, cols, text, row, col, k) == (row, col + k),
        glyph(grid, row, col + k) is Some,
{
    in_a_row_is_walked(grid, cols, text, row, col, k + 1);
    assert(text[k] == text[k]);
}

/// Text that the host breaks before the right edge is found too: where the cell
/// behind its first part was never written, it goes on in the next row, in the
/// column where it began or in the first column.
pub proof fn broken_text_is_found(
    grid: Map<u32, Cell>,
    cols: int,
    first: Seq<char>,
    second: Seq<char>,
    row: int,
    col: int,
    next: int,
)
    requires
        grid.dom().finite(),
        first.len() > 0,
        second.len() > 0,
        stands_at(grid, cols, first, row, col),
        col + first.len() < cols,
        glyph(grid, row, col) is Some,
        glyph(grid, row, col + first.len()) is None,
        second[0] != ' ' && second[0] != '\u{a0}',
        row + 1 < 0x10000,
        stands_at(grid, cols, second, row + 1, next),
        next == col || (next == 0 && !shows(grid, row + 1, col, second[0])),
    ensures
        shown_at(grid, cols, first + second, row, col) is Some,
        latest_shown(grid, first + second, cols) is Some,
{
    let text = first + second;
    let n = first.len() as int;
    assert(text.take(n) =~= first);
    standing_text_is_walked(grid, cols, text, row, col, n, n);
    broken_walk(grid, cols, first, second, row, col, next, second.len() as int);
    assert(text[0] == first[0]);
    assert(shows(grid, row, col + 0, first[0]));
    shown_text_is_found(grid, cols, text, row, col);
}

proof fn broken_walk(
    grid: Map<u32, Cell>,
    cols: int,
    first: Seq<char>,
    second: Seq<char>,
    row: int,
    col: int,
    next: int,
    k: int,
)
    requires
        1 <= k <= second.len(),
        first.len() > 0,
        stands_at(grid, cols, first, row, col),
        col + first.len() < cols,
        glyph(grid, row, col + first.len()) is None,
        second[0] != ' ' && second[0] != '\u{a0}',
        row + 1 < 0x10000,
        stands_at(grid, cols, second, row + 1, next),
        next == col || (next == 0 && !shows(grid, row + 1, col, second[0])),
    ensures
        walked(grid, cols, first + second, row, col, first.len() + k) matches Some(w) && w.row
            == row + 1 && w.col == next + k && w.row_start == next,
    decreases k,
{
    let text = first + second;
    let n = first.len() as int;
    assert(text[n + k - 1] == second[k - 1]);
    assert(shows(grid, row + 1, next + (k - 1), second[k - 1]));
    assert(fits(grid, row + 1, next + k - 1, second[k - 1]));
    if k == 1 {
        assert(text.take(n) =~= first);
        standing_text_is_walked(grid, cols, text, row, col, n, n);
        let w = walked(grid, cols, text, row, col, n)->0;
        assert(!fits(grid, row, col + n, second[0]));
        assert(walked(grid, cols, text, row, col, n + 1) == walked_on(grid, cols, col, w, second[0]));
    } else {
        broken_walk(grid, cols, first, second, row, col, next, k - 1);
        let w = walked(grid, cols, text, row, col, n + k - 1)->0;
        assert(walked(grid, cols, text, row, col, n + k) == walked_on(
            grid,
            cols,
            col,
            w,
            second[k - 1],
        ));
    }
}

/// A cell that is known to show something else is no place for a text: its
/// first character has to be there.
pub proof fn text_begins_with_its_first_character(
    grid: Map<u32, Cell>,
    cols: int,
    text: Seq<char>,
    row: int,
    col: int,
)
    requires
        text.len() > 0,
        glyph(grid, row, col) is None || !shows(grid, row, col, text[0]),
    ensures
        shown_at(grid, cols, text, row, col) is None,
{
}

} // verus!
