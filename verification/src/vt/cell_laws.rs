//! What text and control sequences do to the cells of a screen, told cell by cell.
use crate::vt::attrs::Attrs;
use crate::vt::cell::char_columns;
use crate::vt::cursor_laws::{csi, esc, times};
use crate::vt::grid::GridState;
use crate::vt::parser::{played, EventView};
use crate::vt::row::{Glyph, RowState};
use crate::vt::screen::ScreenState;
use vstd::prelude::*;

verus! {

/// The cell in a place.
pub open spec fn at(s: ScreenState, r: int, c: int) -> Glyph {
    s.grid.rows[r].cells[c]
}

/// Whether a cell is blank, with the look that text would have.
pub open spec fn blanked(c: Glyph, s: ScreenState) -> bool {
    &&& c.text.len() == 0
    &&& !c.wide && !c.continuation
    &&& c.attrs == (Attrs { link: None, ..s.modes.attrs })
    &&& c.data is None
}

/// Whether a cell is blank and plain.
pub open spec fn is_empty(c: Glyph) -> bool {
    c == crate::vt::cell::empty_cell::<crate::vt::cell::Tag>()
}

/// Whether a cell is as it was, or was half of a wide character.
pub open spec fn kept(now: Glyph, was: Glyph) -> bool {
    now == was || was.wide || was.continuation
}

/// Whether two screens differ in the grid that is shown at most.
pub open spec fn same_beside_grid(t: ScreenState, s: ScreenState) -> bool {
    t == (ScreenState { grid: t.grid, ..s })
}

/// Whether two grids differ in their cells at most.
pub open spec fn same_beside_cells(t: GridState, g: GridState) -> bool {
    &&& t == (GridState { rows: t.rows, ..g })
    &&& t.rows.len() == g.rows.len()
}

/// Whether a row is blank.
pub open spec fn blank_line(r: RowState, n: int) -> bool {
    r.cells.len() == n && !r.wrapped && forall|c: int| 0 <= c < n ==> is_empty(#[trigger] r.cells[c])
}

/// Whether a character is text of one column.
pub open spec fn narrow(c: char) -> bool {
    &&& char_columns(c) == Some(1usize)
    &&& c as u32 != 0xfffd && !(0x80 <= c as u32 && (c as u32) < 0xa0)
}

/// A character of one column is put in the cell of the cursor, with the attributes of the
/// moment, and the cursor goes one column to the right. All other rows stay, and of its row all
/// cells but the other half of a wide character that was there.
pub proof fn law_text_is_put_at_the_cursor(s: ScreenState, c: char)
    requires
        s.ok(),
        narrow(c),
        s.grid.col < s.grid.ncols,
        !s.modes.insert,
    ensures
        ({
            let t = played(s, EventView::Print(c));
            let (r, k) = (s.grid.row, s.grid.col);
            &&& at(t, r, k).text == seq![c]
            &&& at(t, r, k).attrs == s.modes.attrs
            &&& !at(t, r, k).wide && !at(t, r, k).continuation
            &&& t.grid.row == r && t.grid.col == k + 1
            &&& forall|j: int| 0 <= j < s.grid.ncols && j != k ==> kept(#[trigger] at(t, r, j), at(s, r, j))
            &&& forall|i: int| 0 <= i < s.grid.rows.len() && i != r ==> #[trigger] t.grid.rows[i]
                == s.grid.rows[i]
            &&& t.modes.attrs == s.modes.attrs && t.other == s.other
        }),
{
    reveal(played);
    assert(s.grid.rows[s.grid.row].cells.len() == s.grid.ncols);
}

/// A character of two columns takes the cell of the cursor and the next one, and the cursor goes
/// two columns to the right.
pub proof fn law_wide_text_takes_two_cells(s: ScreenState, c: char)
    requires
        s.ok(),
        char_columns(c) == Some(2usize),
        c as u32 != 0xfffd && !(0x80 <= c as u32 && (c as u32) < 0xa0),
        s.grid.col + 1 < s.grid.ncols,
        !s.modes.insert,
    ensures
        ({
            let t = played(s, EventView::Print(c));
            let (r, k) = (s.grid.row, s.grid.col);
            &&& at(t, r, k).text == seq![c] && at(t, r, k).wide
            &&& at(t, r, k).attrs == s.modes.attrs
            &&& at(t, r, k + 1).continuation && at(t, r, k + 1).text.len() == 0
            &&& t.grid.row == r && t.grid.col == k + 2
        }),
{
    reveal(played);
    assert(s.grid.rows[s.grid.row].cells.len() == s.grid.ncols);
}

/// A character past the last column goes to the first column of the next row, where lines wrap
/// and there is a next row; where they do not, it goes to the last column.
pub proof fn law_text_wraps(s: ScreenState, c: char)
    requires
        s.ok(),
        narrow(c),
        s.grid.col == s.grid.ncols,
        s.grid.row + 1 < s.grid.rows.len(),
        s.grid.row != s.grid.bottom,
        !s.modes.insert,
    ensures
        ({
            let t = played(s, EventView::Print(c));
            let r = s.grid.row;
            if s.modes.autowrap {
                &&& at(t, r + 1, 0).text == seq![c]
                &&& t.grid.row == r + 1 && t.grid.col == 1
                &&& t.grid.rows[r].cells == s.grid.rows[r].cells
            } else {
                &&& at(t, r, s.grid.ncols - 1).text == seq![c]
                &&& t.grid.row == r && t.grid.col == s.grid.ncols
            }
        }),
{
    reveal(played);
    assert(s.grid.rows[s.grid.row].cells.len() == s.grid.ncols);
    assert(s.grid.rows[s.grid.row + 1].cells.len() == s.grid.ncols);
}

/// A character that takes no column is put behind the text of the cell before the cursor; the
/// cursor stays.
pub proof fn law_combining_text_joins_the_cell_before(s: ScreenState, c: char)
    requires
        s.ok(),
        char_columns(c) == Some(0usize),
        c as u32 != 0xfffd && !(0x80 <= c as u32 && (c as u32) < 0xa0),
        0 < s.grid.col,
        at(s, s.grid.row, s.grid.col - 1).text.len() == 1,
        !at(s, s.grid.row, s.grid.col - 1).continuation,
        vstd::utf8::encode_utf8(at(s, s.grid.row, s.grid.col - 1).text).len() < 18,
    ensures
        ({
            let t = played(s, EventView::Print(c));
            let (r, k) = (s.grid.row, s.grid.col - 1);
            &&& at(t, r, k).text == at(s, r, k).text.push(c)
            &&& at(t, r, k).attrs == at(s, r, k).attrs
            &&& t.grid.row == s.grid.row && t.grid.col == s.grid.col
        }),
{
    reveal(played);
    assert(s.grid.rows[s.grid.row].cells.len() == s.grid.ncols);
}

/// A line feed takes the cursor one row down; in the last row of the region it stays, and the
/// region's rows go up by one, with a blank row at the end.
pub proof fn law_line_feed(s: ScreenState, b: u8)
    requires
        s.ok(),
        b == 10 || b == 11 || b == 12,
    ensures
        ({
            let t = played(s, EventView::Execute(b));
            let g = s.grid;
            &&& same_beside_grid(t, s)
            &&& t.grid.col == g.col
            &&& g.row != g.bottom && g.row + 1 < g.rows.len() ==> t.grid.row == g.row + 1
                && t.grid.rows == g.rows
            &&& g.row != g.bottom && g.row + 1 == g.rows.len() ==> t.grid == g
            &&& g.row == g.bottom ==> {
                &&& same_beside_cells(t.grid, g)
                &&& forall|i: int| g.top <= i < g.bottom ==> #[trigger] t.grid.rows[i] == g.rows[i + 1]
                &&& blank_line(t.grid.rows[g.bottom], g.ncols)
                &&& forall|i: int|
                    0 <= i < g.rows.len() && !(g.top <= i <= g.bottom) ==> #[trigger] t.grid.rows[i]
                        == g.rows[i]
            }
        }),
{
    reveal(played);
}

/// `ESC M` takes the cursor one row up; in the first row of the region it stays, and the
/// region's rows go down by one, with a blank row at the start.
pub proof fn law_reverse_feed(s: ScreenState)
    requires
        s.ok(),
    ensures
        ({
            let t = played(s, esc(0x4d));
            let g = s.grid;
            &&& same_beside_grid(t, s)
            &&& t.grid.col == g.col
            &&& g.row != g.top && g.row > 0 ==> t.grid.row == g.row - 1 && t.grid.rows == g.rows
            &&& g.row == g.top ==> {
                &&& same_beside_cells(t.grid, g)
                &&& forall|i: int|
                    g.top < i <= g.bottom ==> (#[trigger] t.grid.rows[i]).cells == g.rows[i - 1].cells
                &&& blank_line(t.grid.rows[g.top], g.ncols)
                &&& forall|i: int|
                    0 <= i < g.rows.len() && !(g.top <= i <= g.bottom) ==> #[trigger] t.grid.rows[i]
                        == g.rows[i]
            }
        }),
{
    reveal(played);
}

/// Whether the rows from `a` to `b` have gone up by `n`, blank ones having come in at the end.
pub open spec fn gone_up(t: GridState, g: GridState, a: int, b: int, n: int) -> bool {
    &&& same_beside_cells(t, g)
    &&& forall|i: int| a <= i && i + n <= b ==> #[trigger] t.rows[i] == g.rows[i + n]
    &&& forall|i: int| a <= i <= b && i + n > b ==> blank_line(#[trigger] t.rows[i], g.ncols)
    &&& forall|i: int| 0 <= i < g.rows.len() && !(a <= i <= b) ==> #[trigger] t.rows[i] == g.rows[i]
}

/// Whether the rows from `a` to `b` have gone down by `n`, blank ones having come in at the
/// start.
pub open spec fn gone_down(t: GridState, g: GridState, a: int, b: int, n: int) -> bool {
    &&& same_beside_cells(t, g)
    &&& forall|i: int| i <= b && i - n >= a ==> (#[trigger] t.rows[i]).cells == g.rows[i - n].cells
    &&& forall|i: int| a <= i <= b && i - n < a ==> blank_line(#[trigger] t.rows[i], g.ncols)
    &&& forall|i: int| 0 <= i < g.rows.len() && !(a <= i <= b) ==> #[trigger] t.rows[i] == g.rows[i]
}

/// `CSI n S` and `CSI n T` scroll the region up and down by `n` rows; the cursor stays.
pub proof fn law_scrolling(s: ScreenState, n: u16)
    requires
        s.ok(),
    ensures
        ({
            let up = played(s, csi(n, 'S'));
            same_beside_grid(up, s) && gone_up(up.grid, s.grid, s.grid.top, s.grid.bottom, times(n))
        }),
        ({
            let down = played(s, csi(n, 'T'));
            same_beside_grid(down, s) && gone_down(
                down.grid,
                s.grid,
                s.grid.top,
                s.grid.bottom,
                times(n),
            )
        }),
{
    reveal(played);
}

/// `CSI n L` brings in `n` blank rows at the cursor and `CSI n M` takes `n` rows out there; the
/// rows below move, as far as the region's end. Outside the region nothing happens.
pub proof fn law_lines_are_inserted_and_deleted(s: ScreenState, n: u16)
    requires
        s.ok(),
    ensures
        ({
            let t = played(s, csi(n, 'L'));
            let g = s.grid;
            &&& g.top <= g.row <= g.bottom ==> same_beside_grid(t, s) && gone_down(
                t.grid,
                g,
                g.row,
                g.bottom,
                times(n),
            )
            &&& !(g.top <= g.row <= g.bottom) ==> t == s
        }),
        ({
            let t = played(s, csi(n, 'M'));
            let g = s.grid;
            &&& g.top <= g.row <= g.bottom ==> same_beside_grid(t, s) && gone_up(
                t.grid,
                g,
                g.row,
                g.bottom,
                times(n),
            )
            &&& !(g.top <= g.row <= g.bottom) ==> t == s
        }),
{
    reveal(played);
}

/// Whether only cells of the cursor's row differ.
pub open spec fn only_this_row(t: ScreenState, s: ScreenState) -> bool {
    &&& same_beside_grid(t, s)
    &&& same_beside_cells(t.grid, s.grid)
    &&& t.grid.rows[s.grid.row].cells.len() == s.grid.ncols
    &&& forall|i: int| 0 <= i < s.grid.rows.len() && i != s.grid.row ==> #[trigger] t.grid.rows[i]
        == s.grid.rows[i]
}

/// `CSI n @` brings in `n` empty cells at the cursor: those before it stay, those behind move to
/// the right by `n`.
pub proof fn law_cells_are_inserted(s: ScreenState, n: u16)
    requires
        s.ok(),
    ensures
        ({
            let t = played(s, csi(n, '@'));
            let (r, k) = (s.grid.row, s.grid.col);
            &&& only_this_row(t, s)
            &&& forall|j: int| 0 <= j < k ==> kept(#[trigger] at(t, r, j), at(s, r, j))
            &&& forall|j: int|
                k <= j < s.grid.ncols && j < k + times(n) ==> is_empty(#[trigger] at(t, r, j))
            &&& forall|j: int|
                k + times(n) <= j < s.grid.ncols ==> kept(
                    #[trigger] at(t, r, j),
                    at(s, r, j - times(n)),
                )
        }),
{
    reveal(played);
    assert(s.grid.rows[s.grid.row].cells.len() == s.grid.ncols);
}

/// `CSI n P` takes `n` cells out at the cursor: those before it stay, those behind move to the
/// left by `n`, and empty ones come in at the end.
pub proof fn law_cells_are_deleted(s: ScreenState, n: u16)
    requires
        s.ok(),
    ensures
        ({
            let t = played(s, csi(n, 'P'));
            let (r, k) = (s.grid.row, s.grid.col);
            &&& only_this_row(t, s)
            &&& forall|j: int| 0 <= j < k ==> kept(#[trigger] at(t, r, j), at(s, r, j))
            &&& forall|j: int|
                k <= j && j + times(n) < s.grid.ncols ==> kept(
                    #[trigger] at(t, r, j),
                    at(s, r, j + times(n)),
                )
            &&& forall|j: int|
                k <= j < s.grid.ncols && j + times(n) >= s.grid.ncols ==> is_empty(
                    #[trigger] at(t, r, j),
                )
        }),
{
    reveal(played);
    assert(s.grid.rows[s.grid.row].cells.len() == s.grid.ncols);
}

/// `CSI n X` erases `n` cells from the cursor on; the others of the row stay in their places.
pub proof fn law_cells_are_erased(s: ScreenState, n: u16)
    requires
        s.ok(),
    ensures
        ({
            let t = played(s, csi(n, 'X'));
            let (r, k) = (s.grid.row, s.grid.col);
            &&& only_this_row(t, s)
            &&& forall|j: int|
                k <= j < s.grid.ncols && j < k + times(n) ==> blanked(#[trigger] at(t, r, j), s)
            &&& forall|j: int|
                0 <= j < s.grid.ncols && !(k <= j < k + times(n)) ==> kept(
                    #[trigger] at(t, r, j),
                    at(s, r, j),
                )
        }),
{
    reveal(played);
    assert(s.grid.rows[s.grid.row].cells.len() == s.grid.ncols);
}

/// Whether an erasure of a kind takes a column of the cursor's row.
pub open spec fn takes(n: u16, j: int, col: int) -> bool {
    if n == 0 {
        j >= col
    } else if n == 1 {
        j <= col
    } else {
        true
    }
}

/// `CSI K` erases the cursor's row from the cursor on, `CSI 1 K` up to it, and `CSI 2 K` whole.
pub proof fn law_lines_are_erased(s: ScreenState, n: u16)
    requires
        s.ok(),
        n <= 2,
    ensures
        ({
            let t = played(s, csi(n, 'K'));
            let (r, k) = (s.grid.row, s.grid.col);
            &&& only_this_row(t, s)
            &&& forall|j: int|
                0 <= j < s.grid.ncols && takes(n, j, k) ==> blanked(#[trigger] at(t, r, j), s)
            &&& forall|j: int|
                0 <= j < s.grid.ncols && !takes(n, j, k) ==> kept(#[trigger] at(t, r, j), at(s, r, j))
        }),
{
    reveal(played);
    assert(s.grid.rows[s.grid.row].cells.len() == s.grid.ncols);
}

/// `CSI J` erases the screen from the cursor on, `CSI 1 J` up to it, and `CSI 2 J` whole; the
/// cursor stays.
#[verifier::rlimit(40)]
pub proof fn law_screens_are_erased(s: ScreenState, n: u16)
    requires
        s.ok(),
        n <= 2,
    ensures
        ({
            let t = played(s, csi(n, 'J'));
            let (r, k) = (s.grid.row, s.grid.col);
            &&& same_beside_grid(t, s)
            &&& same_beside_cells(t.grid, s.grid)
            &&& forall|j: int|
                0 <= j < s.grid.ncols && takes(n, j, k) ==> blanked(#[trigger] at(t, r, j), s)
            &&& forall|j: int|
                0 <= j < s.grid.ncols && !takes(n, j, k) ==> kept(#[trigger] at(t, r, j), at(s, r, j))
            &&& forall|i: int, j: int|
                0 <= i < s.grid.rows.len() && 0 <= j < s.grid.ncols && ((i > r && n != 1) || (i < r
                    && n != 0)) ==> blanked(#[trigger] at(t, i, j), s)
            &&& forall|i: int|
                0 <= i < s.grid.rows.len() && ((i > r && n == 1) || (i < r && n == 0))
                    ==> #[trigger] t.grid.rows[i] == s.grid.rows[i]
        }),
{
    reveal(played);
    assert(forall|i: int| 0 <= i < s.grid.rows.len() ==> (#[trigger] s.grid.rows[i]).cells.len() == s.grid.ncols);
}

} // verus!
