//! What control sequences do to the cursor, told by where it stands before and after.
use crate::parse::shown_grid;
use crate::vt::parser::{played, EventView};
use crate::vt::screen::{fresh_screen, Modes, ScreenState};
use vstd::prelude::*;

verus! {

/// A CSI sequence with one number and nothing before its final character.
pub open spec fn csi(n: u16, c: char) -> EventView {
    EventView::Csi { params: seq![seq![n]], intermediates: Seq::empty(), action: c }
}

/// A CSI sequence with two numbers.
pub open spec fn csi2(n: u16, m: u16, c: char) -> EventView {
    EventView::Csi { params: seq![seq![n], seq![m]], intermediates: Seq::empty(), action: c }
}

/// An ESC sequence.
pub open spec fn esc(b: u8) -> EventView {
    EventView::Esc { intermediates: Seq::empty(), byte: b }
}

/// A number as a count: a zero stands for one.
pub open spec fn times(n: u16) -> int {
    if n == 0 {
        1
    } else {
        n as int
    }
}

/// Whether nothing differs but the place of the cursor.
pub open spec fn only_cursor_moved(t: ScreenState, s: ScreenState) -> bool {
    t == (ScreenState {
        grid: crate::vt::grid::GridState { row: t.grid.row, col: t.grid.col, ..s.grid },
        ..s
    })
}

/// Whether the cursor is in the scrolling region.
pub open spec fn inside(s: ScreenState) -> bool {
    s.grid.top <= s.grid.row && s.grid.row <= s.grid.bottom
}

/// `CSI n A` takes the cursor `n` rows up in its column, and no further than the first row, or
/// the first row of the region where it is in it. Nothing else changes.
pub proof fn law_cursor_goes_up(s: ScreenState, n: u16)
    requires
        s.ok(),
    ensures
        ({
            let t = played(s, csi(n, 'A'));
            &&& only_cursor_moved(t, s)
            &&& t.grid.col == s.grid.col
            &&& t.grid.row <= s.grid.row
            &&& t.grid.row >= 0
            &&& inside(s) ==> t.grid.row >= s.grid.top
            &&& t.grid.row == s.grid.row - times(n) || (s.grid.row - times(n) < t.grid.row && (
            t.grid.row == 0 || (inside(s) && t.grid.row == s.grid.top)))
        }),
{
    reveal(played);
}

/// `CSI n B` and `CSI n e` take the cursor `n` rows down in its column, and no further than the
/// last row, or the last row of the region where it is in it. Nothing else changes.
pub proof fn law_cursor_goes_down(s: ScreenState, n: u16)
    requires
        s.ok(),
    ensures
        played(s, csi(n, 'e')) == played(s, csi(n, 'B')),
        ({
            let t = played(s, csi(n, 'B'));
            &&& only_cursor_moved(t, s)
            &&& t.grid.col == s.grid.col
            &&& t.grid.row >= s.grid.row
            &&& t.grid.row < s.grid.rows.len()
            &&& inside(s) ==> t.grid.row <= s.grid.bottom
            &&& t.grid.row == s.grid.row + times(n) || (s.grid.row + times(n) > t.grid.row && (
            t.grid.row == s.grid.rows.len() - 1 || (inside(s) && t.grid.row == s.grid.bottom)))
        }),
{
    reveal(played);
}

proof fn lemma_still_ok(s: ScreenState, t: ScreenState)
    requires
        s.ok(),
        only_cursor_moved(t, s),
        0 <= t.grid.row < s.grid.rows.len(),
        0 <= t.grid.col <= s.grid.ncols,
    ensures
        t.ok(),
{
}

/// Down and up again, and up and down again, lead back where no margin is in the way.
pub proof fn law_up_and_down_undo_each_other(s: ScreenState, n: u16)
    requires
        s.ok(),
        s.grid.top == 0,
        s.grid.bottom == s.grid.rows.len() - 1,
    ensures
        s.grid.row + times(n) < s.grid.rows.len() ==> played(played(s, csi(n, 'B')), csi(n, 'A'))
            == s,
        s.grid.row - times(n) >= 0 ==> played(played(s, csi(n, 'A')), csi(n, 'B')) == s,
{
    law_cursor_goes_down(s, n);
    law_cursor_goes_up(s, n);
    lemma_still_ok(s, played(s, csi(n, 'B')));
    lemma_still_ok(s, played(s, csi(n, 'A')));
    if s.grid.row + times(n) < s.grid.rows.len() {
        let d = played(s, csi(n, 'B'));
        law_cursor_goes_up(d, n);
        assert(played(d, csi(n, 'A')).grid =~= s.grid);
    }
    if s.grid.row - times(n) >= 0 {
        let u = played(s, csi(n, 'A'));
        law_cursor_goes_down(u, n);
        assert(played(u, csi(n, 'B')).grid =~= s.grid);
    }
}

/// `CSI n C` and `CSI n a` take the cursor `n` columns to the right, and no further than the
/// last. Nothing else changes.
pub proof fn law_cursor_goes_right(s: ScreenState, n: u16)
    requires
        s.ok(),
    ensures
        played(s, csi(n, 'a')) == played(s, csi(n, 'C')),
        ({
            let t = played(s, csi(n, 'C'));
            &&& only_cursor_moved(t, s)
            &&& t.grid.row == s.grid.row
            &&& t.grid.col < s.grid.ncols
            &&& t.grid.col == s.grid.col + times(n) || (s.grid.col + times(n) > t.grid.col
                && t.grid.col == s.grid.ncols - 1)
        }),
{
    reveal(played);
}

/// `CSI n D` takes the cursor `n` columns to the left, and no further than the first; so does a
/// backspace, by one. Nothing else changes.
pub proof fn law_cursor_goes_left(s: ScreenState, n: u16)
    requires
        s.ok(),
    ensures
        played(s, EventView::Execute(8)) == played(s, csi(1, 'D')),
        ({
            let t = played(s, csi(n, 'D'));
            &&& only_cursor_moved(t, s)
            &&& t.grid.row == s.grid.row
            &&& t.grid.col >= 0
            &&& t.grid.col == s.grid.col - times(n) || (s.grid.col - times(n) < t.grid.col
                && t.grid.col == 0)
        }),
{
    reveal(played);
}

/// Right and left again, and left and right again, lead back where no edge is in the way.
pub proof fn law_right_and_left_undo_each_other(s: ScreenState, n: u16)
    requires
        s.ok(),
    ensures
        s.grid.col + times(n) < s.grid.ncols ==> played(played(s, csi(n, 'C')), csi(n, 'D')) == s,
        s.grid.col < s.grid.ncols && s.grid.col - times(n) >= 0 ==> played(
            played(s, csi(n, 'D')),
            csi(n, 'C'),
        ) == s,
{
    law_cursor_goes_right(s, n);
    law_cursor_goes_left(s, n);
    lemma_still_ok(s, played(s, csi(n, 'C')));
    lemma_still_ok(s, played(s, csi(n, 'D')));
    if s.grid.col + times(n) < s.grid.ncols {
        let r = played(s, csi(n, 'C'));
        law_cursor_goes_left(r, n);
        assert(played(r, csi(n, 'D')).grid =~= s.grid);
    }
    if s.grid.col < s.grid.ncols && s.grid.col - times(n) >= 0 {
        let l = played(s, csi(n, 'D'));
        law_cursor_goes_right(l, n);
        assert(played(l, csi(n, 'C')).grid =~= s.grid);
    }
}

/// A carriage return takes the cursor to the first column of its row.
pub proof fn law_carriage_return(s: ScreenState)
    requires
        s.ok(),
    ensures
        only_cursor_moved(played(s, EventView::Execute(13)), s),
        played(s, EventView::Execute(13)).grid.row == s.grid.row,
        played(s, EventView::Execute(13)).grid.col == 0,
{
    reveal(played);
}

proof fn lemma_rows(s: ScreenState, n: u16)
    ensures
        played(s, csi(n, 'B')) == s.on(s.grid.down(times(n))),
        played(s, csi(n, 'A')) == s.on(s.grid.up(times(n))),
{
    reveal(played);
}

proof fn lemma_lines(s: ScreenState, n: u16)
    ensures
        played(s, csi(n, 'E')) == s.on(s.grid.to_col(0).down(times(n))),
        played(s, csi(n, 'F')) == s.on(s.grid.to_col(0).up(times(n))),
{
    reveal(played);
}

/// `CSI n E` is a carriage return and then `n` rows down; `CSI n F` is one and then `n` rows up.
pub proof fn law_next_and_previous_lines(s: ScreenState, n: u16)
    requires
        s.ok(),
    ensures
        played(s, csi(n, 'E')) == played(played(s, EventView::Execute(13)), csi(n, 'B')),
        played(s, csi(n, 'F')) == played(played(s, EventView::Execute(13)), csi(n, 'A')),
{
    law_carriage_return(s);
    let r = played(s, EventView::Execute(13));
    assert(r == s.on(s.grid.to_col(0)));
    lemma_lines(s, n);
    lemma_rows(r, n);
}

/// `` CSI n G `` and `` CSI n ` `` take the cursor to the `n`-th column of its row, counted from
/// one, and `CSI n d` to the `n`-th row in its column; what is off the screen is its edge.
pub proof fn law_cursor_goes_to_column_or_row(s: ScreenState, n: u16)
    requires
        s.ok(),
    ensures
        played(s, csi(n, '`')) == played(s, csi(n, 'G')),
        ({
            let t = played(s, csi(n, 'G'));
            &&& only_cursor_moved(t, s)
            &&& t.grid.row == s.grid.row
            &&& times(n) <= s.grid.ncols ==> t.grid.col + 1 == times(n)
            &&& times(n) > s.grid.ncols ==> t.grid.col + 1 == s.grid.ncols
        }),
        ({
            let t = played(s, csi(n, 'd'));
            &&& only_cursor_moved(t, s)
            &&& t.grid.col == s.grid.col
            &&& times(n) <= s.grid.rows.len() ==> t.grid.row + 1 == times(n)
            &&& times(n) > s.grid.rows.len() ==> t.grid.row + 1 == s.grid.rows.len()
        }),
{
    reveal(played);
}

/// `CSI r;c H` and `CSI r;c f` take the cursor to row `r` and column `c`, counted from one; in
/// origin mode rows are counted from the region's first. What is outside is the edge.
pub proof fn law_cursor_goes_to_place(s: ScreenState, r: u16, c: u16)
    requires
        s.ok(),
    ensures
        played(s, csi2(r, c, 'f')) == played(s, csi2(r, c, 'H')),
        ({
            let t = played(s, csi2(r, c, 'H'));
            let first = if s.grid.origin {
                s.grid.top
            } else {
                0
            };
            let last = if s.grid.origin {
                s.grid.bottom
            } else {
                s.grid.rows.len() - 1
            };
            &&& only_cursor_moved(t, s)
            &&& first + times(r) - 1 <= last ==> t.grid.row == first + times(r) - 1
            &&& first + times(r) - 1 > last ==> t.grid.row == last
            &&& times(c) <= s.grid.ncols ==> t.grid.col == times(c) - 1
            &&& times(c) > s.grid.ncols ==> t.grid.col == s.grid.ncols - 1
        }),
{
    reveal(played);
}

/// `CSI H` takes the cursor to the first row and column, outside origin mode.
pub proof fn law_home(s: ScreenState)
    requires
        s.ok(),
        !s.grid.origin,
    ensures
        ({
            let t = played(s, csi(0, 'H'));
            only_cursor_moved(t, s) && t.grid.row == 0 && t.grid.col == 0
        }),
{
    reveal(played);
}

/// `CSI ?25h` shows the cursor and `CSI ?25l` hides it; nothing else changes.
pub proof fn law_cursor_is_shown_and_hidden(s: ScreenState)
    ensures
        played(s, private(25, 'h')) == (ScreenState {
            modes: Modes { hide_cursor: false, ..s.modes },
            ..s
        }),
        played(s, private(25, 'l')) == (ScreenState {
            modes: Modes { hide_cursor: true, ..s.modes },
            ..s
        }),
        shown_grid(played(s, private(25, 'h'))).cursor == Some((s.grid.row as u16, s.grid.col as u16)),
        shown_grid(played(s, private(25, 'l'))).cursor is None,
{
    reveal(played);
    reveal_with_fuel(ScreenState::all_moded, 2);
}

/// Going to a place, from wherever, leads to one screen: addressing is absolute.
pub proof fn law_addressing_is_absolute(s: ScreenState, a: EventView, r: u16, c: u16)
    requires
        s.ok(),
        only_cursor_moved(played(s, a), s),
    ensures
        played(played(s, a), csi2(r, c, 'H')) == played(s, csi2(r, c, 'H')),
{
    reveal(played);
    let t = played(s, a);
    let x = played(t, csi2(r, c, 'H'));
    let y = played(s, csi2(r, c, 'H'));
    assert(x.grid =~= y.grid);
    assert(x =~= y);
}

/// `CSI s` keeps the cursor's place and `CSI u` takes it back there, from wherever it went in
/// between.
pub proof fn law_marked_place_comes_back(s: ScreenState, row: int, col: int)
    requires
        s.ok(),
    ensures
        ({
            let kept = played(s, csi(0, 's'));
            let gone = ScreenState {
                grid: crate::vt::grid::GridState { row, col, ..kept.grid },
                ..kept
            };
            let back = played(gone, csi(0, 'u'));
            &&& back.grid.row == s.grid.row
            &&& back.grid.col == s.grid.col
            &&& back.grid.rows == s.grid.rows
            &&& only_cursor_moved(back, kept)
            &&& kept.grid == s.grid
        }),
{
    reveal(played);
}

/// `ESC 7` keeps the cursor's place and the attributes, and `ESC 8` takes both back; neither
/// touches a cell.
pub proof fn law_saved_cursor_comes_back_by_escapes(s: ScreenState, row: int, col: int)
    requires
        s.ok(),
    ensures
        ({
            let kept = played(s, esc(0x37));
            let gone = ScreenState {
                grid: crate::vt::grid::GridState { row, col, ..kept.grid },
                modes: crate::vt::screen::Modes {
                    attrs: crate::vt::attrs::no_attrs(),
                    ..kept.modes
                },
                ..kept
            };
            let back = played(gone, esc(0x38));
            &&& back.grid.row == s.grid.row
            &&& back.grid.col == s.grid.col
            &&& back.grid.rows == s.grid.rows
            &&& back.modes.attrs == s.modes.attrs
            &&& kept.grid.rows == s.grid.rows
            &&& kept.grid.row == s.grid.row && kept.grid.col == s.grid.col
            &&& kept.modes.attrs == s.modes.attrs
        }),
{
    reveal(played);
}

/// `CSI t;b r` makes the rows from `t` to `b`, counted from one, the scrolling region, and puts
/// the cursor in its first place; where that is no region it is the whole screen.
pub proof fn law_region_is_set(s: ScreenState, t: u16, b: u16)
    requires
        s.ok(),
    ensures
        ({
            let x = played(s, csi2(t, b, 'r'));
            let n = s.grid.rows.len() as int;
            let last = if b == 0 || b > n {
                n
            } else {
                b as int
            };
            &&& x.grid.rows == s.grid.rows
            &&& x.grid.row == x.grid.top && x.grid.col == 0
            &&& times(t) < last ==> x.grid.top == times(t) - 1 && x.grid.bottom == last - 1
            &&& times(t) >= last ==> x.grid.top == 0 && x.grid.bottom == n - 1
            &&& x.modes == s.modes && x.other == s.other
        }),
{
    reveal(played);
}

/// `CSI ? 6 h` counts rows from the region's first and `CSI ? 6 l` from the screen's; both take
/// the cursor to the first place.
pub proof fn law_origin_mode(s: ScreenState)
    requires
        s.ok(),
    ensures
        ({
            let on = played(s, private(6, 'h'));
            let off = played(s, private(6, 'l'));
            &&& on.grid.origin && on.grid.row == s.grid.top && on.grid.col == 0
            &&& !off.grid.origin && off.grid.row == 0 && off.grid.col == 0
            &&& on.grid.rows == s.grid.rows && off.grid.rows == s.grid.rows
        }),
{
    reveal(played);
    reveal_with_fuel(ScreenState::all_moded, 2);
}

/// A private CSI sequence with one number.
pub open spec fn private(n: u16, c: char) -> EventView {
    EventView::Csi { params: seq![seq![n]], intermediates: seq![0x3fu8], action: c }
}

proof fn lemma_tab(s: ScreenState)
    ensures
        played(s, EventView::Execute(9)) == s.on(
            s.grid.to_col(crate::vt::screen::stop_from(s.tabs, s.grid.col + 1)),
        ),
        played(s, csi(1, 'Z')) == s.on(
            s.grid.to_col(crate::vt::screen::stop_before(s.tabs, s.grid.col)),
        ),
{
    reveal(played);
    reveal_with_fuel(crate::vt::screen::tabbed, 2);
    reveal_with_fuel(crate::vt::screen::back_tabbed, 2);
}

/// On a fresh screen a tab takes the cursor to the next column that is a multiple of eight, or
/// to the last one.
pub proof fn law_tabs_stop_at_every_eighth_column(rows: int, cols: int, col: int)
    requires
        1 <= rows <= 0xffff,
        1 <= cols <= 0xffff,
        0 <= col < cols,
    ensures
        ({
            let f = fresh_screen(rows, cols);
            let s = ScreenState {
                grid: crate::vt::grid::GridState { col, ..f.grid },
                ..f
            };
            let t = played(s, EventView::Execute(9));
            let next = (col / 8 + 1) * 8;
            &&& only_cursor_moved(t, s)
            &&& t.grid.row == s.grid.row
            &&& next < cols ==> t.grid.col == next
            &&& next >= cols ==> t.grid.col == cols - 1
        }),
{
    let f = fresh_screen(rows, cols);
    let tabs = f.tabs;
    let next = (col / 8 + 1) * 8;
    let stop = if next < cols {
        next
    } else {
        cols - 1
    };
    assert forall|j: int| col + 1 <= j < stop implies !tabs[j] by {
        assert(j % 8 != 0) by (nonlinear_arith)
            requires
                col / 8 * 8 < j < (col / 8 + 1) * 8,
        ;
    }
    assert((col / 8 + 1) * 8 % 8 == 0) by (nonlinear_arith);
    lemma_stop(tabs, col + 1, stop);
    let s = ScreenState { grid: crate::vt::grid::GridState { col, ..f.grid }, ..f };
    lemma_tab(s);
}

proof fn lemma_stop(tabs: Seq<bool>, i: int, stop: int)
    requires
        0 <= i,
        i <= stop || stop == tabs.len() - 1,
        0 <= stop <= tabs.len() - 1,
        stop == tabs.len() - 1 || tabs[stop],
        forall|j: int| i <= j < stop ==> !tabs[j],
    ensures
        crate::vt::screen::stop_from(tabs, i) == stop,
    decreases tabs.len() - i,
{
    if i < tabs.len() - 1 && !tabs[i] {
        lemma_stop(tabs, i + 1, stop);
    }
}

/// A tab stop that `ESC H` sets in a column is where a tab from the left stops, where there is
/// none between; `CSI Z` goes back to it from the right.
pub proof fn law_set_tab_stops_hold(s: ScreenState, col: int)
    requires
        s.ok(),
        s.grid.col < s.grid.ncols,
        0 <= col < s.grid.ncols,
    ensures
        ({
            let t = played(s, esc(0x48));
            let from = ScreenState {
                grid: crate::vt::grid::GridState { col, ..t.grid },
                ..t
            };
            &&& t.grid == s.grid
            &&& (col < s.grid.col && forall|j: int| col < j < s.grid.col ==> !s.tabs[j]) ==> played(
                from,
                EventView::Execute(9),
            ).grid.col == s.grid.col
            &&& (col > s.grid.col && forall|j: int| s.grid.col < j < col ==> !s.tabs[j]) ==> played(
                from,
                csi(1, 'Z'),
            ).grid.col == s.grid.col
        }),
{
    let t = played(s, esc(0x48));
    let c = s.grid.col;
    assert(t == (ScreenState { tabs: s.tabs.update(c, true), ..s })) by {
        reveal(played);
    }
    assert(t.tabs[c]);
    let from = ScreenState { grid: crate::vt::grid::GridState { col, ..t.grid }, ..t };
    lemma_tab(from);
    if col < c && forall|j: int| col < j < c ==> !s.tabs[j] {
        lemma_stop(t.tabs, col + 1, c);
    }
    if col > c && forall|j: int| c < j < col ==> !s.tabs[j] {
        lemma_stop_before(t.tabs, col, c);
    }
}

proof fn lemma_stop_before(tabs: Seq<bool>, i: int, stop: int)
    requires
        0 <= stop < i <= tabs.len(),
        tabs[stop],
        forall|j: int| stop < j < i ==> !tabs[j],
    ensures
        crate::vt::screen::stop_before(tabs, i) == stop,
    decreases i,
{
    if i - 1 != stop {
        lemma_stop_before(tabs, i - 1, stop);
    }
}

/// `CSI I` is a tab.
pub proof fn law_forward_tab_is_a_tab(s: ScreenState)
    requires
        s.ok(),
    ensures
        played(s, csi(1, 'I')) == played(s, EventView::Execute(9)),
{
    reveal(played);
}

} // verus!
