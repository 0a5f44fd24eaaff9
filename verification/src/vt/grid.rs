//! The rows of a screen, and the cursor among them.
use crate::vt::attrs::Attrs;
use crate::vt::cell::{char_columns, char_width, is_wide_char};
use crate::vt::row::{
    blank_row, erased, resized, shifted_left, shifted_right, whole, written, Row, RowState,
};
use vstd::prelude::*;

verus! {

/// Rows, a cursor, the scrolling region, and what was saved of the cursor.
#[derive(Clone)]
pub struct Grid {
    rows: Vec<Row>,
    ncols: u16,
    row: u16,
    col: u16,
    saved_row: u16,
    saved_col: u16,
    top: u16,
    bottom: u16,
    origin: bool,
    saved_origin: bool,
}

/// The model of [`Grid`].
#[verifier::ext_equal]
pub ghost struct GridState {
    pub rows: Seq<RowState>,
    pub ncols: int,
    /// The cursor's row.
    pub row: int,
    /// The cursor's column; one past the last where the next character wraps.
    pub col: int,
    pub saved_row: int,
    pub saved_col: int,
    /// The first and the last row of the scrolling region.
    pub top: int,
    pub bottom: int,
    /// Rows are counted from the scrolling region's first.
    pub origin: bool,
    pub saved_origin: bool,
}

/// The models of rows.
pub open spec fn row_states(s: Seq<Row>) -> Seq<RowState> {
    Seq::new(s.len(), |i: int| s[i]@)
}

/// A grid before anything is drawn.
pub open spec fn empty_grid(rows: int, cols: int) -> GridState {
    GridState {
        rows: Seq::new(rows as nat, |i: int| blank_row(cols)),
        ncols: cols,
        row: 0,
        col: 0,
        saved_row: 0,
        saved_col: 0,
        top: 0,
        bottom: rows - 1,
        origin: false,
        saved_origin: false,
    }
}

/// The smaller of two numbers.
pub open spec fn least(a: int, b: int) -> int {
    if a < b {
        a
    } else {
        b
    }
}

/// The larger of two numbers.
pub open spec fn most(a: int, b: int) -> int {
    if a > b {
        a
    } else {
        b
    }
}

/// The columns that a character takes: none for one that combines, two for a wide one.
pub open spec fn columns(c: char) -> int {
    match char_columns(c) {
        Some(w) => if w == 0 {
            0
        } else if w == 1 {
            1
        } else {
            2
        },
        None => 1,
    }
}

/// Whether a character is not drawn at all: a control character.
pub open spec fn undrawn(c: char) -> bool {
    char_columns(c) is None && (c as u32) < 256
}

impl GridState {
    /// What holds of every grid: every row has the same number of cells and no half of a wide
    /// character, and the cursor and the region are inside.
    pub open spec fn ok(self) -> bool {
        &&& 1 <= self.rows.len() <= 0xffff
        &&& 1 <= self.ncols <= 0xffff
        &&& forall|i: int|
            0 <= i < self.rows.len() ==> (#[trigger] self.rows[i]).cells.len() == self.ncols && whole(
                self.rows[i].cells,
            )
        &&& 0 <= self.row < self.rows.len()
        &&& 0 <= self.col <= self.ncols
        &&& 0 <= self.saved_row < self.rows.len()
        &&& 0 <= self.saved_col <= self.ncols
        &&& 0 <= self.top <= self.bottom < self.rows.len()
    }

    /// The rows from `a` to `b` moved up by `k`; blank ones come in.
    pub open spec fn lines_up(self, a: int, b: int, k: int) -> GridState {
        GridState {
            rows: Seq::new(
                self.rows.len(),
                |i: int|
                    if a <= i <= b {
                        if i + k <= b {
                            self.rows[i + k]
                        } else {
                            blank_row(self.ncols)
                        }
                    } else {
                        self.rows[i]
                    },
            ),
            ..self
        }
    }

    /// The rows from `a` to `b` moved down by `k`; blank ones come in, and the last row does not
    /// go on.
    pub open spec fn lines_down(self, a: int, b: int, k: int) -> GridState {
        GridState {
            rows: Seq::new(
                self.rows.len(),
                |i: int|
                    if a <= i <= b {
                        let r = if i - k >= a {
                            self.rows[i - k]
                        } else {
                            blank_row(self.ncols)
                        };
                        if i == b && k > 0 {
                            RowState { wrapped: false, ..r }
                        } else {
                            r
                        }
                    } else {
                        self.rows[i]
                    },
            ),
            ..self
        }
    }

    /// The region scrolled up by `n`.
    pub open spec fn scrolled_up(self, n: int) -> GridState {
        self.lines_up(self.top, self.bottom, least(n, self.bottom - self.top + 1))
    }

    /// The region scrolled down by `n`.
    pub open spec fn scrolled_down(self, n: int) -> GridState {
        self.lines_down(self.top, self.bottom, least(n, self.bottom - self.top + 1))
    }

    /// Blank rows at the cursor; nothing where it is outside the region.
    pub open spec fn lines_inserted(self, n: int) -> GridState {
        if self.in_region() {
            self.lines_down(self.row, self.bottom, least(n, self.bottom - self.row + 1))
        } else {
            self
        }
    }

    /// Rows gone from the cursor on; nothing where it is outside the region.
    pub open spec fn lines_deleted(self, n: int) -> GridState {
        if self.in_region() {
            self.lines_up(self.row, self.bottom, least(n, self.bottom - self.row + 1))
        } else {
            self
        }
    }

    /// Empty cells at the cursor; those at the row's end go.
    pub open spec fn cells_inserted(self, n: int) -> GridState {
        self.with_cells(
            self.row,
            shifted_right(self.rows[self.row].cells, self.col, least(n, self.ncols - self.col)),
        )
    }

    /// Cells gone from the cursor on; empty ones come in at the row's end.
    pub open spec fn cells_deleted(self, n: int) -> GridState {
        self.with_cells(
            self.row,
            shifted_left(self.rows[self.row].cells, self.col, least(n, self.ncols - self.col)),
        )
    }

    /// Cells erased from the cursor on.
    pub open spec fn cells_erased(self, n: int, attrs: Attrs) -> GridState {
        self.row_erased(self.col, least(self.col + n, self.ncols), attrs)
    }

    /// The cursor in a place of the screen, or behind the last cell of a row.
    pub open spec fn at(self, r: int, c: int) -> GridState {
        GridState { row: least(r, self.rows.len() - 1), col: least(c, self.ncols), ..self }
    }

    /// Whether the cursor is in the scrolling region.
    pub open spec fn in_region(self) -> bool {
        self.top <= self.row <= self.bottom
    }

    /// The cursor one row down; the region scrolls where it is at its end.
    pub open spec fn line_feed(self) -> GridState {
        if self.row == self.bottom {
            self.lines_up(self.top, self.bottom, 1)
        } else if self.row + 1 < self.rows.len() {
            GridState { row: self.row + 1, ..self }
        } else {
            self
        }
    }

    /// The cursor one row up; the region scrolls where it is at its start.
    pub open spec fn reverse_feed(self) -> GridState {
        if self.row == self.top {
            self.lines_down(self.top, self.bottom, 1)
        } else if self.row > 0 {
            GridState { row: self.row - 1, ..self }
        } else {
            self
        }
    }

    /// A row with its mark of going on.
    pub open spec fn with_wrapped(self, i: int, on: bool) -> GridState {
        GridState {
            rows: self.rows.update(i, RowState { wrapped: on, ..self.rows[i] }),
            ..self
        }
    }

    /// Whether the last cell of the cursor's row is taken.
    pub open spec fn row_is_full(self) -> bool {
        let last = self.rows[self.row].cells[self.ncols - 1];
        last.text.len() > 0 || last.continuation
    }

    /// The cursor at the start of the next row. The row that was left goes on where its last
    /// cell is taken.
    pub open spec fn next_line(self) -> GridState {
        let full = self.row_is_full();
        let g = GridState { col: 0, ..self }.line_feed();
        if self.row == self.bottom {
            if self.top < self.bottom {
                g.with_wrapped(g.row - 1, full)
            } else {
                g
            }
        } else if g.row > self.row {
            g.with_wrapped(self.row, full)
        } else {
            g
        }
    }

    /// The cursor where a character of `w` columns goes: on the next row where it does not fit
    /// and `autowrap`, else at the edge.
    pub open spec fn fitted(self, w: int, autowrap: bool) -> GridState {
        if self.col + w > self.ncols {
            if autowrap {
                self.next_line()
            } else {
                GridState { col: self.ncols - w, ..self }
            }
        } else {
            self
        }
    }

    /// A row with other cells.
    pub open spec fn with_cells(self, i: int, cells: Seq<crate::vt::row::Glyph>) -> GridState {
        GridState { rows: self.rows.update(i, RowState { cells, ..self.rows[i] }), ..self }
    }

    /// The cell that a combining character at the cursor goes to.
    pub open spec fn base_cell(self) -> Option<(int, int)> {
        let at = if self.col > 0 {
            Some((self.row, self.col - 1))
        } else if self.row > 0 && self.rows[self.row - 1].wrapped {
            Some((self.row - 1, self.ncols - 1))
        } else {
            None
        };
        match at {
            Some((r, c)) => if self.rows[r].cells[c].continuation {
                Some((r, c - 1))
            } else {
                Some((r, c))
            },
            None => None,
        }
    }

    /// The cursor's row with cells tagged as those of one row of an image.
    pub open spec fn stamped(self, col: int, n: int, mark: char, row: u16) -> GridState {
        self.with_cells(
            self.row,
            crate::vt::row::stamped(self.rows[self.row].cells, col, n, mark, row),
        )
    }

    /// A character in the cells at the cursor, which has the room for it, and the cursor behind
    /// it; the cells from there on make room where `insert`.
    pub open spec fn placed(self, c: char, a: Attrs, insert: bool) -> GridState {
        let cells = if insert {
            shifted_right(self.rows[self.row].cells, self.col, columns(c))
        } else {
            self.rows[self.row].cells
        };
        GridState {
            col: self.col + columns(c),
            ..self.with_cells(self.row, written(cells, self.col, c, a))
        }
    }

    /// A character drawn at the cursor.
    pub open spec fn drawn(self, c: char, a: Attrs, autowrap: bool, insert: bool) -> GridState {
        let w = columns(c);
        if undrawn(c) || w > self.ncols {
            self
        } else if w == 0 {
            match self.base_cell() {
                Some((r, k)) => self.with_cells(
                    r,
                    self.rows[r].cells.update(k, self.rows[r].cells[k].appended(c)),
                ),
                None => self,
            }
        } else {
            self.fitted(w, autowrap).placed(c, a, insert)
        }
    }

    /// The cursor's row with the cells from `a` to `b` erased.
    pub open spec fn row_erased(self, a: int, b: int, attrs: Attrs) -> GridState {
        GridState {
            rows: self.rows.update(self.row, erased(self.rows[self.row], a, b, attrs)),
            ..self
        }
    }

    /// The part of the cursor's row that an erasure of a kind takes: 0 from the cursor on, 1 up
    /// to it, else all.
    pub open spec fn erase_span(self, mode: int) -> (int, int) {
        if mode == 0 {
            (self.col, self.ncols)
        } else if mode == 1 {
            (0, least(self.col + 1, self.ncols))
        } else {
            (0, self.ncols)
        }
    }

    /// Part of the cursor's row erased.
    pub open spec fn line_erased(self, mode: int, attrs: Attrs) -> GridState {
        let (a, b) = self.erase_span(mode);
        self.row_erased(a, b, attrs)
    }

    /// Part of the screen erased: 0 from the cursor on, 1 up to it, else all.
    pub open spec fn screen_erased(self, mode: int, attrs: Attrs) -> GridState {
        let (a, b) = self.erase_span(mode);
        GridState {
            rows: Seq::new(
                self.rows.len(),
                |i: int|
                    if i == self.row {
                        erased(self.rows[i], a, b, attrs)
                    } else if (mode == 0 && i > self.row) || (mode == 1 && i < self.row) || (mode != 0
                        && mode != 1) {
                        erased(self.rows[i], 0, self.ncols, attrs)
                    } else {
                        self.rows[i]
                    },
            ),
            ..self
        }
    }

    /// The rows that the cursor can go up and down to: the region's where it is in it.
    pub open spec fn row_limits(self) -> (int, int) {
        if self.in_region() {
            (self.top, self.bottom)
        } else {
            (0, self.rows.len() - 1)
        }
    }

    /// The cursor `n` rows up.
    pub open spec fn up(self, n: int) -> GridState {
        GridState { row: most(self.row - n, self.row_limits().0), ..self }
    }

    /// The cursor `n` rows down.
    pub open spec fn down(self, n: int) -> GridState {
        GridState { row: least(self.row + n, self.row_limits().1), ..self }
    }

    /// The cursor `n` columns to the right.
    pub open spec fn right(self, n: int) -> GridState {
        GridState { col: least(self.col + n, self.ncols - 1), ..self }
    }

    /// The cursor `n` columns to the left.
    pub open spec fn left(self, n: int) -> GridState {
        GridState { col: most(self.col - n, 0), ..self }
    }

    /// The cursor in a column.
    pub open spec fn to_col(self, c: int) -> GridState {
        GridState { col: least(c, self.ncols - 1), ..self }
    }

    /// The cursor in a row.
    pub open spec fn to_row(self, r: int) -> GridState {
        GridState { row: least(r, self.rows.len() - 1), ..self }
    }

    /// The cursor in a place, counted from the region's first row where the origin is there.
    pub open spec fn to(self, r: int, c: int) -> GridState {
        GridState {
            row: if self.origin {
                least(self.top + r, self.bottom)
            } else {
                least(r, self.rows.len() - 1)
            },
            col: least(c, self.ncols - 1),
            ..self
        }
    }

    /// The scrolling region from row `a` to row `b`; the whole screen where that is no region.
    pub open spec fn with_region(self, a: int, b: int) -> GridState {
        let last = least(b, self.rows.len() - 1);
        let (t, e) = if a < last {
            (a, last)
        } else {
            (0, self.rows.len() - 1)
        };
        GridState { top: t, bottom: e, row: t, col: 0, ..self }
    }

    /// No scrolling region, rows counted from the first, and no cursor saved.
    pub open spec fn soft_reset(self) -> GridState {
        GridState {
            top: 0,
            bottom: self.rows.len() - 1,
            origin: false,
            saved_row: 0,
            saved_col: 0,
            saved_origin: false,
            ..self
        }
    }

    /// Rows counted from the region's first, or not, and the cursor in the first place.
    pub open spec fn with_origin(self, on: bool) -> GridState {
        GridState { origin: on, ..self }.to(0, 0)
    }

    /// The cursor saved.
    pub open spec fn saved(self) -> GridState {
        GridState {
            saved_row: self.row,
            saved_col: self.col,
            saved_origin: self.origin,
            ..self
        }
    }

    /// The cursor as it was saved.
    pub open spec fn restored(self) -> GridState {
        GridState {
            row: self.saved_row,
            col: self.saved_col,
            origin: self.saved_origin,
            ..self
        }
    }

    /// A place in a grid of another width.
    pub open spec fn kept_col(self, c: int, cols: int) -> int {
        if cols < self.ncols {
            least(c, cols - 1)
        } else {
            c
        }
    }

    /// The grid in another size: rows and columns are cut or come in at the end.
    pub open spec fn sized(self, rows: int, cols: int) -> GridState {
        let b = if self.bottom + 1 == self.rows.len() || self.bottom >= rows {
            rows - 1
        } else {
            self.bottom
        };
        GridState {
            rows: Seq::new(
                rows as nat,
                |i: int|
                    if i < self.rows.len() {
                        resized(self.rows[i], cols)
                    } else {
                        blank_row(cols)
                    },
            ),
            ncols: cols,
            row: least(self.row, rows - 1),
            col: self.kept_col(self.col, cols),
            saved_row: least(self.saved_row, rows - 1),
            saved_col: self.kept_col(self.saved_col, cols),
            top: if self.top > b {
                0
            } else {
                self.top
            },
            bottom: b,
            ..self
        }
    }
}

impl View for Grid {
    type V = GridState;

    closed spec fn view(&self) -> GridState {
        GridState {
            rows: row_states(self.rows@),
            ncols: self.ncols as int,
            row: self.row as int,
            col: self.col as int,
            saved_row: self.saved_row as int,
            saved_col: self.saved_col as int,
            top: self.top as int,
            bottom: self.bottom as int,
            origin: self.origin,
            saved_origin: self.saved_origin,
        }
    }
}

proof fn lemma_blank_whole(n: int)
    requires
        n >= 0,
    ensures
        blank_row(n).cells.len() == n,
        whole(blank_row(n).cells),
{
    let s = blank_row(n).cells;
    assert forall|i: int| 0 <= i < s.len() implies !(#[trigger] crate::vt::row::is_half(s, i)) && !(
    s[i].wide && s[i].continuation) by {
    }
}

/// The columns that a character takes, where it is drawn.
fn char_cols(c: char) -> (r: Option<u16>)
    ensures
        r is None <==> undrawn(c),
        r matches Some(w) ==> w == columns(c) && (w == 2 <==> is_wide_char(c)),
{
    match char_width(c) {
        Some(w) => if w == 0 {
            Some(0)
        } else if w == 1 {
            Some(1)
        } else {
            Some(2)
        },
        None => if (c as u32) < 256 {
            None
        } else {
            Some(1)
        },
    }
}

/// Whether a character takes a cell of its own.
pub fn takes_cell(c: char) -> (r: bool)
    ensures
        r == !(undrawn(c) || columns(c) == 0),
{
    match char_cols(c) {
        Some(w) => w > 0,
        None => false,
    }
}

fn smaller(a: u32, b: u16) -> (r: u16)
    ensures
        r == least(a as int, b as int),
{
    if a < b as u32 {
        a as u16
    } else {
        b
    }
}

impl Grid {
    /// What holds of every grid.
    pub open spec fn wf(&self) -> bool {
        self@.ok()
    }

    /// An empty grid.
    pub fn new(rows: u16, cols: u16) -> (r: Grid)
        requires
            rows >= 1,
            cols >= 1,
        ensures
            r.wf(),
            r@ == empty_grid(rows as int, cols as int),
    {
        let mut v: Vec<Row> = Vec::new();
        let mut i: u16 = 0;
        while i < rows
            invariant
                i <= rows,
                v@.len() == i,
                forall|j: int| 0 <= j < i ==> (#[trigger] v@[j])@ == blank_row(cols as int),
            decreases rows - i,
        {
            v.push(Row::blank(cols));
            i += 1;
        }
        let r = Grid {
            rows: v,
            ncols: cols,
            row: 0,
            col: 0,
            saved_row: 0,
            saved_col: 0,
            top: 0,
            bottom: rows - 1,
            origin: false,
            saved_origin: false,
        };
        proof {
            lemma_blank_whole(cols as int);
            assert(r@.rows =~= empty_grid(rows as int, cols as int).rows);
        }
        r
    }

    /// The number of rows.
    pub fn nrows(&self) -> (r: u16)
        requires
            self.wf(),
        ensures
            r == self@.rows.len(),
    {
        self.rows.len() as u16
    }

    /// The number of columns.
    pub fn ncols(&self) -> (r: u16)
        ensures
            r == self@.ncols,
    {
        self.ncols
    }

    /// The cursor's row and column.
    pub fn pos(&self) -> (r: (u16, u16))
        ensures
            r.0 == self@.row,
            r.1 == self@.col,
    {
        (self.row, self.col)
    }

    /// A row.
    pub fn get(&self, i: u16) -> (r: Option<&Row>)
        ensures
            r is Some <==> i < self@.rows.len(),
            r matches Some(x) ==> x@ == self@.rows[i as int],
    {
        if (i as usize) < self.rows.len() {
            Some(&self.rows[i as usize])
        } else {
            None
        }
    }

    fn lines_up(&mut self, a: u16, b: u16, k: u16)
        requires
            old(self).wf(),
            a <= b < old(self)@.rows.len(),
        ensures
            final(self).wf(),
            final(self)@ == old(self)@.lines_up(
                a as int,
                b as int,
                least(k as int, b - a + 1),
            ),
    {
        let ghost s = self@;
        let size: u16 = b - a + 1;
        let n: u16 = if k < size {
            k
        } else {
            size
        };
        let mut j: u16 = 0;
        assert(self@ =~= s.lines_up(a as int, b as int, 0));
        proof {
            lemma_blank_whole(s.ncols);
        }
        while j < n
            invariant
                j <= n <= b - a + 1,
                a <= b < s.rows.len(),
                s.ok(),
                self@ == s.lines_up(a as int, b as int, j as int),
                self.rows@.len() == s.rows.len(),
            decreases n - j,
        {
            let ghost was = self@;
            let _gone = self.rows.remove(a as usize);
            self.rows.insert(b as usize, Row::blank(self.ncols));
            j += 1;
            assert(self@.rows =~= s.lines_up(a as int, b as int, j as int).rows) by {
                assert forall|i: int| 0 <= i < s.rows.len() implies self@.rows[i] == s.lines_up(
                    a as int,
                    b as int,
                    j as int,
                ).rows[i] by {
                    if i < a {
                        assert(self@.rows[i] == was.rows[i]);
                    } else if i < b {
                        assert(self@.rows[i] == was.rows[i + 1]);
                    } else if i > b {
                        assert(self@.rows[i] == was.rows[i]);
                    }
                }
            }
            assert(self@ =~= s.lines_up(a as int, b as int, j as int));
        }
        assert(self@.ok()) by {
            assert forall|i: int| 0 <= i < self@.rows.len() implies (#[trigger] self@.rows[i]).cells.len()
                == self@.ncols && whole(self@.rows[i].cells) by {
            }
        }
    }

    fn lines_down(&mut self, a: u16, b: u16, k: u16)
        requires
            old(self).wf(),
            a <= b < old(self)@.rows.len(),
        ensures
            final(self).wf(),
            final(self)@ == old(self)@.lines_down(
                a as int,
                b as int,
                least(k as int, b - a + 1),
            ),
    {
        let ghost s = self@;
        let size: u16 = b - a + 1;
        let n: u16 = if k < size {
            k
        } else {
            size
        };
        let mut j: u16 = 0;
        assert(self@ =~= s.lines_down(a as int, b as int, 0));
        proof {
            lemma_blank_whole(s.ncols);
        }
        while j < n
            invariant
                j <= n <= b - a + 1,
                a <= b < s.rows.len(),
                s.ok(),
                self@ == s.lines_down(a as int, b as int, j as int),
                self.rows@.len() == s.rows.len(),
            decreases n - j,
        {
            let ghost was = self@;
            let _gone = self.rows.remove(b as usize);
            self.rows.insert(a as usize, Row::blank(self.ncols));
            let mut last = self.rows.remove(b as usize);
            last.set_wrapped(false);
            self.rows.insert(b as usize, last);
            j += 1;
            let ghost want = s.lines_down(a as int, b as int, j as int);
            assert forall|i: int| 0 <= i < s.rows.len() implies self@.rows[i] == want.rows[i] by {
                if i < a {
                    assert(self@.rows[i] == was.rows[i]);
                } else if i > b {
                    assert(self@.rows[i] == was.rows[i]);
                } else if i == a {
                    if a == b {
                    }
                } else if i < b {
                    assert(self@.rows[i] == was.rows[i - 1]);
                } else {
                    assert(self@.rows[i] == (RowState { wrapped: false, ..was.rows[i - 1] }));
                }
            }
            assert(self@.rows =~= want.rows);
            assert(self@ =~= want);
        }
        assert(self@.ok()) by {
            assert forall|i: int| 0 <= i < self@.rows.len() implies (#[trigger] self@.rows[i]).cells.len()
                == self@.ncols && whole(self@.rows[i].cells) by {
            }
        }
    }

    /// Scroll the region up.
    pub fn scroll_up(&mut self, n: u16)
        requires
            old(self).wf(),
        ensures
            final(self).wf(),
            final(self)@ == old(self)@.scrolled_up(n as int),
    {
        self.lines_up(self.top, self.bottom, n);
    }

    /// Scroll the region down.
    pub fn scroll_down(&mut self, n: u16)
        requires
            old(self).wf(),
        ensures
            final(self).wf(),
            final(self)@ == old(self)@.scrolled_down(n as int),
    {
        self.lines_down(self.top, self.bottom, n);
    }

    /// Insert blank rows at the cursor; nothing outside the region.
    pub fn insert_lines(&mut self, n: u16)
        requires
            old(self).wf(),
        ensures
            final(self).wf(),
            final(self)@ == old(self)@.lines_inserted(n as int),
    {
        if self.top <= self.row && self.row <= self.bottom {
            self.lines_down(self.row, self.bottom, n);
        }
    }

    /// Delete rows at the cursor; nothing outside the region.
    pub fn delete_lines(&mut self, n: u16)
        requires
            old(self).wf(),
        ensures
            final(self).wf(),
            final(self)@ == old(self)@.lines_deleted(n as int),
    {
        if self.top <= self.row && self.row <= self.bottom {
            self.lines_up(self.row, self.bottom, n);
        }
    }

    /// The cursor one row down.
    pub fn line_feed(&mut self)
        requires
            old(self).wf(),
        ensures
            final(self).wf(),
            final(self)@ == old(self)@.line_feed(),
    {
        if self.row == self.bottom {
            self.lines_up(self.top, self.bottom, 1);
        } else if (self.row as usize) + 1 < self.rows.len() {
            self.row = self.row + 1;
        }
        assert(self@ =~= old(self)@.line_feed());
    }

    /// The cursor one row up.
    pub fn reverse_feed(&mut self)
        requires
            old(self).wf(),
        ensures
            final(self).wf(),
            final(self)@ == old(self)@.reverse_feed(),
    {
        if self.row == self.top {
            self.lines_down(self.top, self.bottom, 1);
        } else if self.row > 0 {
            self.row = self.row - 1;
        }
        assert(self@ =~= old(self)@.reverse_feed());
    }

    fn set_wrapped(&mut self, i: u16, on: bool)
        requires
            old(self).wf(),
            i < old(self)@.rows.len(),
        ensures
            final(self).wf(),
            final(self)@ == old(self)@.with_wrapped(i as int, on),
    {
        let ghost s = self@;
        let k: usize = i as usize;
        let mut r = self.rows.remove(k);
        r.set_wrapped(on);
        self.rows.insert(k, r);
        assert(self@.rows =~= s.with_wrapped(i as int, on).rows);
        assert(self@ =~= s.with_wrapped(i as int, on));
        assert(self@.ok()) by {
            assert forall|j: int| 0 <= j < self@.rows.len() implies (#[trigger] self@.rows[j]).cells.len()
                == self@.ncols && whole(self@.rows[j].cells) by {
                assert(s.rows[j].cells.len() == s.ncols);
            }
        }
    }

    fn next_line(&mut self)
        requires
            old(self).wf(),
        ensures
            final(self).wf(),
            final(self)@ == old(self)@.next_line(),
    {
        let ghost s = self@;
        let r: u16 = self.row;
        let scrolls = self.row == self.bottom;
        let many = self.top < self.bottom;
        assert(s.rows[r as int].cells.len() == s.ncols);
        let full = match self.rows[r as usize].cell(self.ncols - 1) {
            Some(c) => c.has_contents() || c.is_wide_continuation(),
            None => false,
        };
        assert(s.rows[r as int] == self.rows@[r as int]@);
        assert(full == s.row_is_full());
        self.col = 0;
        assert(self@ =~= (GridState { col: 0, ..s }));
        self.line_feed();
        if scrolls {
            if many {
                self.set_wrapped(self.row - 1, full);
            }
        } else if self.row > r {
            self.set_wrapped(r, full);
        }
    }

    /// The cell that a combining character at the cursor goes to.
    fn base_cell(&self) -> (r: Option<(u16, u16)>)
        requires
            self.wf(),
        ensures
            (match r {
                Some((a, b)) => Some((a as int, b as int)),
                None => None,
            }) == self@.base_cell(),
            r matches Some((a, b)) ==> a < self@.rows.len() && b < self@.ncols,
    {
        let (r, c): (u16, u16) = if self.col > 0 {
            (self.row, self.col - 1)
        } else if self.row > 0 && self.rows[(self.row - 1) as usize].is_wrapped() {
            (self.row - 1, self.ncols - 1)
        } else {
            return None;
        };
        let ghost row = self@.rows[r as int];
        assert(row == self.rows@[r as int]@);
        assert(row.cells.len() == self@.ncols && whole(row.cells));
        let cont = match self.rows[r as usize].cell(c) {
            Some(x) => x.is_wide_continuation(),
            None => false,
        };
        if cont {
            assert(!crate::vt::row::is_half(row.cells, c as int));
            Some((r, c - 1))
        } else {
            Some((r, c))
        }
    }

    fn combine(&mut self, c: char)
        requires
            old(self).wf(),
        ensures
            final(self).wf(),
            final(self)@ == (match old(self)@.base_cell() {
                Some((r, k)) => old(self)@.with_cells(
                    r,
                    old(self)@.rows[r].cells.update(k, old(self)@.rows[r].cells[k].appended(c)),
                ),
                None => old(self)@,
            }),
    {
        if let Some((r, k)) = self.base_cell() {
            let ghost s = self@;
            let i: usize = r as usize;
            assert(s.rows[i as int].cells.len() == s.ncols && whole(s.rows[i as int].cells));
            let mut row = self.rows.remove(i);
            assert(row@ == s.rows[i as int]);
            row.append(k, c);
            self.rows.insert(i, row);
            proof {
                let want = s.with_cells(
                    r as int,
                    s.rows[r as int].cells.update(
                        k as int,
                        s.rows[r as int].cells[k as int].appended(c),
                    ),
                );
                assert(self@.rows =~= want.rows);
                assert(self@ =~= want);
                assert forall|j: int|
                    0 <= j < self@.rows.len() implies (#[trigger] self@.rows[j]).cells.len()
                    == self@.ncols && whole(self@.rows[j].cells) by {
                    assert(s.rows[j].cells.len() == s.ncols);
                }
            }
        }
    }

    fn fit(&mut self, w: u16, autowrap: bool)
        requires
            old(self).wf(),
            1 <= w <= old(self)@.ncols,
        ensures
            final(self).wf(),
            final(self)@ == old(self)@.fitted(w as int, autowrap),
            final(self)@.ncols == old(self)@.ncols,
            final(self)@.col + w <= final(self)@.ncols,
    {
        if self.col as u32 + w as u32 > self.ncols as u32 {
            if autowrap {
                self.next_line();
            } else {
                self.col = self.ncols - w;
            }
        }
        assert(self@ =~= old(self)@.fitted(w as int, autowrap));
    }

    fn place(&mut self, c: char, w: u16, a: Attrs, insert: bool)
        requires
            old(self).wf(),
            w == columns(c),
            1 <= w,
            old(self)@.col + w <= old(self)@.ncols,
        ensures
            final(self).wf(),
            final(self)@ == old(self)@.placed(c, a, insert),
    {
        let ghost g = self@;
        let i: usize = self.row as usize;
        assert(g.rows[i as int].cells.len() == g.ncols && whole(g.rows[i as int].cells));
        let mut row = self.rows.remove(i);
        assert(row@ == g.rows[i as int]);
        if insert {
            row.insert(self.col, w);
        }
        row.put(self.col, c, a);
        let ghost after = row@;
        self.rows.insert(i, row);
        self.col = self.col + w;
        proof {
            let want = g.placed(c, a, insert);
            assert(after == want.rows[i as int]);
            assert(self@.rows =~= want.rows);
            assert(self@ =~= want);
            assert forall|j: int|
                0 <= j < self@.rows.len() implies (#[trigger] self@.rows[j]).cells.len()
                == self@.ncols && whole(self@.rows[j].cells) by {
                assert(g.rows[j].cells.len() == g.ncols);
                if j != i {
                    assert(self@.rows[j] == g.rows[j]);
                }
            }
        }
    }

    /// Draw a character at the cursor.
    pub fn draw(&mut self, c: char, a: Attrs, autowrap: bool, insert: bool)
        requires
            old(self).wf(),
        ensures
            final(self).wf(),
            final(self)@ == old(self)@.drawn(c, a, autowrap, insert),
    {
        match char_cols(c) {
            Some(w) => {
                if w == 0 {
                    self.combine(c);
                } else if w <= self.ncols {
                    self.fit(w, autowrap);
                    self.place(c, w, a, insert);
                }
            },
            None => {},
        }
    }

    fn erase_in_row(&mut self, i: u16, from: u16, to: u16, attrs: Attrs)
        requires
            old(self).wf(),
            i < old(self)@.rows.len(),
            from <= to <= old(self)@.ncols,
        ensures
            final(self).wf(),
            final(self)@ == (GridState {
                rows: old(self)@.rows.update(
                    i as int,
                    erased(old(self)@.rows[i as int], from as int, to as int, attrs),
                ),
                ..old(self)@
            }),
    {
        let ghost s = self@;
        let k: usize = i as usize;
        assert(s.rows[i as int].cells.len() == s.ncols && whole(s.rows[i as int].cells));
        let mut r = self.rows.remove(k);
        assert(r@ == s.rows[i as int]);
        r.erase(from, to, attrs);
        self.rows.insert(k, r);
        proof {
            let want = GridState {
                rows: s.rows.update(
                    i as int,
                    erased(s.rows[i as int], from as int, to as int, attrs),
                ),
                ..s
            };
            assert(self@.rows =~= want.rows);
            assert(self@ =~= want);
            assert forall|j: int| 0 <= j < self@.rows.len() implies (#[trigger] self@.rows[j]).cells.len()
                == self@.ncols && whole(self@.rows[j].cells) by {
                assert(s.rows[j].cells.len() == s.ncols);
            }
        }
    }

    /// Tag `n` cells of the cursor's row from `col` on as those of one row of an image.
    pub fn stamp(&mut self, col: u16, n: u16, mark: char, row: u16)
        requires
            old(self).wf(),
        ensures
            final(self).wf(),
            final(self)@ == old(self)@.stamped(col as int, n as int, mark, row),
    {
        let ghost s = self@;
        let k: usize = self.row as usize;
        assert(s.rows[k as int].cells.len() == s.ncols && whole(s.rows[k as int].cells));
        let mut r = self.rows.remove(k);
        assert(r@ == s.rows[k as int]);
        r.stamp(col, n, mark, row);
        self.rows.insert(k, r);
        proof {
            let want = s.stamped(col as int, n as int, mark, row);
            assert(self@.rows =~= want.rows);
            assert(self@ =~= want);
            assert forall|j: int| 0 <= j < self@.rows.len() implies (#[trigger] self@.rows[j]).cells.len()
                == self@.ncols && whole(self@.rows[j].cells) by {
                assert(s.rows[j].cells.len() == s.ncols);
            }
        }
    }

    fn erase_span(&self, mode: u16) -> (r: (u16, u16))
        requires
            self.wf(),
        ensures
            (r.0 as int, r.1 as int) == self@.erase_span(mode as int),
            r.0 <= r.1 <= self@.ncols,
    {
        if mode == 0 {
            (self.col, self.ncols)
        } else if mode == 1 {
            (0, smaller(self.col as u32 + 1, self.ncols))
        } else {
            (0, self.ncols)
        }
    }

    /// Erase part of the cursor's row.
    pub fn erase_line(&mut self, mode: u16, attrs: Attrs)
        requires
            old(self).wf(),
        ensures
            final(self).wf(),
            final(self)@ == old(self)@.line_erased(mode as int, attrs),
    {
        let (a, b) = self.erase_span(mode);
        self.erase_in_row(self.row, a, b, attrs);
    }

    /// Erase part of the screen.
    pub fn erase_screen(&mut self, mode: u16, attrs: Attrs)
        requires
            old(self).wf(),
        ensures
            final(self).wf(),
            final(self)@ == old(self)@.screen_erased(mode as int, attrs),
    {
        let ghost s = self@;
        let ghost want = s.screen_erased(mode as int, attrs);
        let (a, b) = self.erase_span(mode);
        let n: u16 = self.nrows();
        let r: u16 = self.row;
        let mut i: u16 = 0;
        while i < n
            invariant
                i <= n,
                n == s.rows.len(),
                s.ok(),
                self@.ok(),
                self@ == (GridState { rows: self@.rows, ..s }),
                self@.rows.len() == n,
                r == s.row,
                (a as int, b as int) == s.erase_span(mode as int),
                a <= b <= s.ncols,
                want == s.screen_erased(mode as int, attrs),
                forall|j: int|
                    0 <= j < n ==> #[trigger] self@.rows[j] == (if j < i {
                        want.rows[j]
                    } else {
                        s.rows[j]
                    }),
            decreases n - i,
        {
            let ghost was = self@.rows;
            assert(was[i as int] == s.rows[i as int]);
            if i == r {
                self.erase_in_row(i, a, b, attrs);
            } else if (mode == 0 && i > r) || (mode == 1 && i < r) || (mode != 0 && mode != 1) {
                self.erase_in_row(i, 0, self.ncols, attrs);
            }
            assert forall|j: int| 0 <= j < n implies #[trigger] self@.rows[j] == (if j < i + 1 {
                want.rows[j]
            } else {
                s.rows[j]
            }) by {
                if j != i {
                    assert(self@.rows[j] == was[j]);
                }
            }
            i += 1;
        }
        assert(self@.rows =~= want.rows);
        assert(self@ =~= want);
    }

    /// Erase cells from the cursor on.
    pub fn erase_cells(&mut self, n: u16, attrs: Attrs)
        requires
            old(self).wf(),
        ensures
            final(self).wf(),
            final(self)@ == old(self)@.cells_erased(n as int, attrs),
    {
        let b: u16 = smaller(self.col as u32 + n as u32, self.ncols);
        self.erase_in_row(self.row, self.col, b, attrs);
    }

    /// Insert empty cells at the cursor.
    pub fn insert_cells(&mut self, n: u16)
        requires
            old(self).wf(),
        ensures
            final(self).wf(),
            final(self)@ == old(self)@.cells_inserted(n as int),
    {
        let ghost s = self@;
        let k: u16 = smaller(n as u32, self.ncols - self.col);
        let i: usize = self.row as usize;
        assert(s.rows[i as int].cells.len() == s.ncols && whole(s.rows[i as int].cells));
        let mut row = self.rows.remove(i);
        assert(row@ == s.rows[i as int]);
        row.insert(self.col, k);
        let ghost after = row@;
        self.rows.insert(i, row);
        proof {
            let want = s.with_cells(s.row, after.cells);
            assert(self@.rows =~= want.rows);
            assert(self@ =~= want);
            assert forall|j: int| 0 <= j < self@.rows.len() implies (#[trigger] self@.rows[j]).cells.len()
                == self@.ncols && whole(self@.rows[j].cells) by {
                assert(s.rows[j].cells.len() == s.ncols);
            }
        }
    }

    /// Delete cells at the cursor.
    pub fn delete_cells(&mut self, n: u16)
        requires
            old(self).wf(),
        ensures
            final(self).wf(),
            final(self)@ == old(self)@.cells_deleted(n as int),
    {
        let ghost s = self@;
        let k: u16 = smaller(n as u32, self.ncols - self.col);
        let i: usize = self.row as usize;
        assert(s.rows[i as int].cells.len() == s.ncols && whole(s.rows[i as int].cells));
        let mut row = self.rows.remove(i);
        assert(row@ == s.rows[i as int]);
        row.remove(self.col, k);
        let ghost after = row@;
        self.rows.insert(i, row);
        proof {
            let want = s.with_cells(s.row, after.cells);
            assert(self@.rows =~= want.rows);
            assert(self@ =~= want);
            assert forall|j: int| 0 <= j < self@.rows.len() implies (#[trigger] self@.rows[j]).cells.len()
                == self@.ncols && whole(self@.rows[j].cells) by {
                assert(s.rows[j].cells.len() == s.ncols);
            }
        }
    }

    /// The cursor up.
    pub fn up(&mut self, n: u16)
        requires
            old(self).wf(),
        ensures
            final(self).wf(),
            final(self)@ == old(self)@.up(n as int),
    {
        let limit: u16 = if self.top <= self.row && self.row <= self.bottom {
            self.top
        } else {
            0
        };
        let r: u16 = if self.row > n {
            self.row - n
        } else {
            0
        };
        self.row = if r > limit {
            r
        } else {
            limit
        };
        assert(self@ =~= old(self)@.up(n as int));
    }

    /// The cursor down.
    pub fn down(&mut self, n: u16)
        requires
            old(self).wf(),
        ensures
            final(self).wf(),
            final(self)@ == old(self)@.down(n as int),
    {
        let limit: u16 = if self.top <= self.row && self.row <= self.bottom {
            self.bottom
        } else {
            self.nrows() - 1
        };
        self.row = smaller(self.row as u32 + n as u32, limit);
        assert(self@ =~= old(self)@.down(n as int));
    }

    /// The cursor to the right.
    pub fn right(&mut self, n: u16)
        requires
            old(self).wf(),
        ensures
            final(self).wf(),
            final(self)@ == old(self)@.right(n as int),
    {
        self.col = smaller(self.col as u32 + n as u32, self.ncols - 1);
        assert(self@ =~= old(self)@.right(n as int));
    }

    /// The cursor to the left.
    pub fn left(&mut self, n: u16)
        requires
            old(self).wf(),
        ensures
            final(self).wf(),
            final(self)@ == old(self)@.left(n as int),
    {
        self.col = if self.col > n {
            self.col - n
        } else {
            0
        };
        assert(self@ =~= old(self)@.left(n as int));
    }

    /// The cursor in a column.
    pub fn set_col(&mut self, c: u16)
        requires
            old(self).wf(),
        ensures
            final(self).wf(),
            final(self)@ == old(self)@.to_col(c as int),
    {
        self.col = smaller(c as u32, self.ncols - 1);
        assert(self@ =~= old(self)@.to_col(c as int));
    }

    /// The cursor in a row.
    pub fn set_row(&mut self, r: u16)
        requires
            old(self).wf(),
        ensures
            final(self).wf(),
            final(self)@ == old(self)@.to_row(r as int),
    {
        self.row = smaller(r as u32, self.nrows() - 1);
        assert(self@ =~= old(self)@.to_row(r as int));
    }

    /// The cursor in a place.
    pub fn set_pos(&mut self, r: u16, c: u16)
        requires
            old(self).wf(),
        ensures
            final(self).wf(),
            final(self)@ == old(self)@.to(r as int, c as int),
    {
        if self.origin {
            self.row = smaller(self.top as u32 + r as u32, self.bottom);
        } else {
            self.row = smaller(r as u32, self.nrows() - 1);
        }
        self.col = smaller(c as u32, self.ncols - 1);
        assert(self@ =~= old(self)@.to(r as int, c as int));
    }

    /// The cursor in a place of the screen, or behind the last cell of a row.
    pub fn set_at(&mut self, r: u16, c: u16)
        requires
            old(self).wf(),
        ensures
            final(self).wf(),
            final(self)@ == old(self)@.at(r as int, c as int),
    {
        self.row = smaller(r as u32, self.nrows() - 1);
        self.col = smaller(c as u32, self.ncols);
        assert(self@ =~= old(self)@.at(r as int, c as int));
    }

    /// The scrolling region; the cursor goes to its start.
    pub fn set_region(&mut self, a: u16, b: u16)
        requires
            old(self).wf(),
        ensures
            final(self).wf(),
            final(self)@ == old(self)@.with_region(a as int, b as int),
    {
        let n: u16 = self.nrows();
        let last: u16 = smaller(b as u32, n - 1);
        if a < last {
            self.top = a;
            self.bottom = last;
        } else {
            self.top = 0;
            self.bottom = n - 1;
        }
        self.row = self.top;
        self.col = 0;
        assert(self@ =~= old(self)@.with_region(a as int, b as int));
    }

    /// Count rows from the region's first, or not; the cursor goes to the first place.
    pub fn set_origin(&mut self, on: bool)
        requires
            old(self).wf(),
        ensures
            final(self).wf(),
            final(self)@ == old(self)@.with_origin(on),
    {
        self.origin = on;
        assert(self@ =~= (GridState { origin: on, ..old(self)@ }));
        self.set_pos(0, 0);
    }

    /// No scrolling region, and rows counted from the first; the cursor stays.
    pub fn reset_margins(&mut self)
        requires
            old(self).wf(),
        ensures
            final(self).wf(),
            final(self)@ == old(self)@.soft_reset(),
    {
        self.top = 0;
        self.bottom = self.nrows() - 1;
        self.origin = false;
        self.saved_row = 0;
        self.saved_col = 0;
        self.saved_origin = false;
        assert(self@ =~= old(self)@.soft_reset());
    }

    /// Save the cursor.
    pub fn save(&mut self)
        requires
            old(self).wf(),
        ensures
            final(self).wf(),
            final(self)@ == old(self)@.saved(),
    {
        self.saved_row = self.row;
        self.saved_col = self.col;
        self.saved_origin = self.origin;
        assert(self@ =~= old(self)@.saved());
    }

    /// Take the cursor as it was saved.
    pub fn restore(&mut self)
        requires
            old(self).wf(),
        ensures
            final(self).wf(),
            final(self)@ == old(self)@.restored(),
    {
        self.row = self.saved_row;
        self.col = self.saved_col;
        self.origin = self.saved_origin;
        assert(self@ =~= old(self)@.restored());
    }

    /// Another size.
    pub fn set_size(&mut self, rows: u16, cols: u16)
        requires
            old(self).wf(),
            rows >= 1,
            cols >= 1,
        ensures
            final(self).wf(),
            final(self)@ == old(self)@.sized(rows as int, cols as int),
    {
        let ghost s = self@;
        let ghost want = s.sized(rows as int, cols as int);
        let old_rows: u16 = self.nrows();
        let old_cols: u16 = self.ncols;
        let (row, col): (u16, u16) = (self.row, self.col);
        let (saved_row, saved_col): (u16, u16) = (self.saved_row, self.saved_col);
        let (top, bottom): (u16, u16) = (self.top, self.bottom);
        let (origin, saved_origin) = (self.origin, self.saved_origin);
        self.rows.truncate(rows as usize);
        let ghost cut = self.rows@;
        assert(forall|j: int| 0 <= j < cut.len() ==> (#[trigger] cut[j])@ == s.rows[j]) by {
            assert forall|j: int| 0 <= j < cut.len() implies (#[trigger] cut[j])@ == s.rows[j] by {
                assert(s.rows[j] == old(self).rows@[j]@);
            }
        }
        let m: usize = self.rows.len();
        let mut i: usize = 0;
        while i < m
            invariant
                i <= m,
                m == self.rows@.len(),
                m == cut.len(),
                m <= s.rows.len(),
                s.ok(),
                forall|j: int|
                    0 <= j < m ==> (#[trigger] self.rows@[j])@ == (if j < i {
                        resized(s.rows[j], cols as int)
                    } else {
                        s.rows[j]
                    }),
                forall|j: int| 0 <= j < i ==> whole(#[trigger] self.rows@[j]@.cells),
            decreases m - i,
        {
            let ghost was = self.rows@;
            assert(was[i as int]@ == s.rows[i as int]);
            assert(whole(s.rows[i as int].cells)) by {
                assert(s.rows[i as int].cells.len() == s.ncols);
            }
            let mut r = self.rows.remove(i);
            r.resize(cols);
            self.rows.insert(i, r);
            assert forall|j: int| 0 <= j < m implies (#[trigger] self.rows@[j])@ == (if j < i + 1 {
                resized(s.rows[j], cols as int)
            } else {
                s.rows[j]
            }) by {
                if j != i {
                    assert(self.rows@[j] == was[j]);
                }
            }
            assert forall|j: int| 0 <= j < i + 1 implies whole(#[trigger] self.rows@[j]@.cells) by {
                if j != i {
                    assert(self.rows@[j] == was[j]);
                }
            }
            i += 1;
        }
        proof {
            lemma_blank_whole(cols as int);
        }
        while self.rows.len() < rows as usize
            invariant
                m <= self.rows@.len(),
                m <= rows,
                m == least(rows as int, s.rows.len() as int),
                self.rows@.len() <= rows,
                whole(blank_row(cols as int).cells),
                forall|j: int|
                    0 <= j < self.rows@.len() ==> (#[trigger] self.rows@[j])@ == (if j < m {
                        resized(s.rows[j], cols as int)
                    } else {
                        blank_row(cols as int)
                    }),
                forall|j: int| 0 <= j < self.rows@.len() ==> whole(#[trigger] self.rows@[j]@.cells),
            decreases rows - self.rows@.len(),
        {
            self.rows.push(Row::blank(cols));
        }
        self.ncols = cols;
        self.row = smaller(row as u32, rows - 1);
        self.saved_row = smaller(saved_row as u32, rows - 1);
        if cols < old_cols {
            self.col = smaller(col as u32, cols - 1);
            self.saved_col = smaller(saved_col as u32, cols - 1);
        } else {
            self.col = col;
            self.saved_col = saved_col;
        }
        let b: u16 = if bottom as u32 + 1 == old_rows as u32 || bottom >= rows {
            rows - 1
        } else {
            bottom
        };
        self.bottom = b;
        self.top = if top > b {
            0
        } else {
            top
        };
        self.origin = origin;
        self.saved_origin = saved_origin;
        proof {
            assert(self@.rows =~= want.rows);
            assert(self@ =~= want);
            assert forall|j: int| 0 <= j < self@.rows.len() implies (#[trigger] self@.rows[j]).cells.len()
                == self@.ncols && whole(self@.rows[j].cells) by {
                assert(self@.rows[j] == self.rows@[j]@);
            }
        }
    }
}

} // verus!
