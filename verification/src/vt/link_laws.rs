//! Every hyperlink on a screen is one that the screen knows.
use crate::vt::attrs::Attrs;
use crate::vt::cell::is_wide_char;
use crate::vt::grid::{columns, empty_grid, least, most, undrawn, GridState};
use crate::vt::perform::{Action, OscView};
use crate::vt::row::{
    blank_row, erased, is_half, mended, resized, shifted_left, shifted_right, unmended, whole, written,
    Glyph, RowState,
};
use crate::vt::screen::{fresh_screen, link_number, ScreenState};
use crate::vt::sgr::{following_color, one_sgr, sgr_from, single, takes_color, with_color};
use vstd::prelude::*;

verus! {

/// Whether attributes have no link, or one of the first `n`.
pub open spec fn linked(a: Attrs, n: int) -> bool {
    a.link_ok() && (a.link matches Some(k) ==> k <= n)
}

/// Whether the links of cells are among the first `n`.
pub open spec fn cells_linked(s: Seq<Glyph>, n: int) -> bool {
    forall|i: int| 0 <= i < s.len() ==> linked((#[trigger] s[i]).attrs, n)
}

/// Whether the links of a grid are among the first `n`.
pub open spec fn grid_linked(g: GridState, n: int) -> bool {
    forall|i: int| 0 <= i < g.rows.len() ==> cells_linked((#[trigger] g.rows[i]).cells, n)
}

/// Whether every link on a screen, and those of the text to come, have their targets.
pub open spec fn links_known(s: ScreenState) -> bool {
    let n = s.links.len() as int;
    &&& grid_linked(s.grid, n)
    &&& grid_linked(s.other, n)
    &&& linked(s.modes.attrs, n)
    &&& linked(s.modes.saved_attrs, n)
}

// ---- rows ----

proof fn lemma_mended(s: Seq<Glyph>, n: int)
    requires
        cells_linked(s, n),
    ensures
        cells_linked(mended(s), n),
        mended(s).len() == s.len(),
        starts_whole(mended(s)),
{
    let t = mended(s);
    assert forall|i: int| 0 <= i < t.len() implies linked((#[trigger] t[i]).attrs, n) by {
        assert(linked(s[i].attrs, n));
    }
}

proof fn lemma_written(s: Seq<Glyph>, col: int, c: char, a: Attrs, n: int)
    requires
        cells_linked(s, n),
        linked(a, n),
        0 <= col < s.len(),
        is_wide_char(c) ==> col + 1 < s.len(),
    ensures
        cells_linked(written(s, col, c, a), n),
        written(s, col, c, a).len() == s.len(),
        starts_whole(written(s, col, c, a)),
{
    let t = unmended(s, col, c, a);
    assert forall|i: int| 0 <= i < t.len() implies linked((#[trigger] t[i]).attrs, n) by {
        assert(linked(s[i].attrs, n));
    }
    lemma_mended(t, n);
}

proof fn lemma_erased(r: RowState, x: int, y: int, a: Attrs, n: int)
    requires
        cells_linked(r.cells, n),
    ensures
        cells_linked(erased(r, x, y, a).cells, n),
        erased(r, x, y, a).cells.len() == r.cells.len(),
        starts_whole(erased(r, x, y, a).cells),
{
    let t = Seq::new(
        r.cells.len(),
        |j: int|
            if x <= j < y {
                crate::vt::row::cleared(a)
            } else {
                r.cells[j]
            },
    );
    assert forall|i: int| 0 <= i < t.len() implies linked((#[trigger] t[i]).attrs, n) by {
        assert(linked(r.cells[i].attrs, n));
    }
    lemma_mended(t, n);
}

proof fn lemma_shifted_right(s: Seq<Glyph>, col: int, k: int, n: int)
    requires
        cells_linked(s, n),
        0 <= col,
        0 <= k,
    ensures
        cells_linked(shifted_right(s, col, k), n),
        shifted_right(s, col, k).len() == s.len(),
        starts_whole(shifted_right(s, col, k)),
{
    let t = Seq::new(
        s.len(),
        |j: int|
            if j < col {
                s[j]
            } else if j < col + k {
                crate::vt::cell::empty_cell()
            } else {
                s[j - k]
            },
    );
    assert forall|i: int| 0 <= i < t.len() implies linked((#[trigger] t[i]).attrs, n) by {
        assert(linked(s[i].attrs, n));
        if i >= col + k {
            assert(linked(s[i - k].attrs, n));
        }
    }
    lemma_mended(t, n);
}

proof fn lemma_shifted_left(s: Seq<Glyph>, col: int, k: int, n: int)
    requires
        cells_linked(s, n),
        0 <= col,
        0 <= k,
    ensures
        cells_linked(shifted_left(s, col, k), n),
        shifted_left(s, col, k).len() == s.len(),
        starts_whole(shifted_left(s, col, k)),
{
    let t = Seq::new(
        s.len(),
        |j: int|
            if j < col {
                s[j]
            } else if j + k < s.len() {
                s[j + k]
            } else {
                crate::vt::cell::empty_cell()
            },
    );
    assert forall|i: int| 0 <= i < t.len() implies linked((#[trigger] t[i]).attrs, n) by {
        assert(linked(s[i].attrs, n));
        if i + k < s.len() {
            assert(linked(s[i + k].attrs, n));
        }
    }
    lemma_mended(t, n);
}

proof fn lemma_blank(m: int, n: int)
    requires
        m >= 0,
    ensures
        cells_linked(blank_row(m).cells, n),
        blank_row(m).cells.len() == m,
        starts_whole(blank_row(m).cells),
{
}

proof fn lemma_resized(r: RowState, m: int, n: int)
    requires
        cells_linked(r.cells, n),
        m >= 0,
    ensures
        cells_linked(resized(r, m).cells, n),
        resized(r, m).cells.len() == m,
        starts_whole(resized(r, m).cells),
{
    let t = Seq::new(
        m as nat,
        |j: int|
            if j < r.cells.len() {
                r.cells[j]
            } else {
                crate::vt::cell::empty_cell()
            },
    );
    assert forall|i: int| 0 <= i < t.len() implies linked((#[trigger] t[i]).attrs, n) by {
        if i < r.cells.len() {
            assert(linked(r.cells[i].attrs, n));
        }
    }
    lemma_mended(t, n);
}

// ---- grids ----

/// Whether a row has its length, and its links are among the first `n`.
spec fn row_fits(r: RowState, m: int, n: int) -> bool {
    &&& r.cells.len() == m
    &&& cells_linked(r.cells, n)
    &&& starts_whole(r.cells)
}

/// Whether the first cell is not the second half of a wide character.
spec fn starts_whole(s: Seq<Glyph>) -> bool {
    s.len() > 0 ==> !s[0].continuation
}

/// Whether rows have their lengths, the cursor and the region are in the grid, and its links
/// are among the first `n`.
spec fn fits(g: GridState, n: int) -> bool {
    &&& g.ncols >= 1
    &&& 0 <= g.row < g.rows.len()
    &&& 0 <= g.saved_row < g.rows.len()
    &&& 0 <= g.col <= g.ncols
    &&& 0 <= g.saved_col <= g.ncols
    &&& 0 <= g.top <= g.bottom < g.rows.len()
    &&& forall|i: int| 0 <= i < g.rows.len() ==> row_fits(#[trigger] g.rows[i], g.ncols, n)
}

proof fn lemma_empty_fits(rows: int, cols: int, n: int)
    requires
        rows >= 1,
        cols >= 1,
    ensures
        fits(empty_grid(rows, cols), n),
{
    lemma_blank(cols, n);
}

proof fn lemma_lines_up(g: GridState, a: int, b: int, k: int, n: int)
    requires
        fits(g, n),
        0 <= a <= b < g.rows.len(),
        0 <= k,
    ensures
        fits(g.lines_up(a, b, k), n),
{
    lemma_blank(g.ncols, n);
    let t = g.lines_up(a, b, k);
    assert forall|i: int| 0 <= i < t.rows.len() implies row_fits(#[trigger] t.rows[i], t.ncols, n) by {
        assert(row_fits(g.rows[i], g.ncols, n));
        if a <= i && i + k <= b {
            assert(row_fits(g.rows[i + k], g.ncols, n));
        }
    }
}

proof fn lemma_lines_down(g: GridState, a: int, b: int, k: int, n: int)
    requires
        fits(g, n),
        0 <= a <= b < g.rows.len(),
        0 <= k,
    ensures
        fits(g.lines_down(a, b, k), n),
{
    lemma_blank(g.ncols, n);
    let t = g.lines_down(a, b, k);
    assert forall|i: int| 0 <= i < t.rows.len() implies row_fits(#[trigger] t.rows[i], t.ncols, n) by {
        assert(row_fits(g.rows[i], g.ncols, n));
        if i <= b && i - k >= a {
            assert(row_fits(g.rows[i - k], g.ncols, n));
        }
    }
}

proof fn lemma_with_row(g: GridState, i: int, r: RowState, n: int)
    requires
        fits(g, n),
        0 <= i < g.rows.len(),
        row_fits(r, g.ncols, n),
    ensures
        fits(GridState { rows: g.rows.update(i, r), ..g }, n),
{
    let t = GridState { rows: g.rows.update(i, r), ..g };
    assert forall|j: int| 0 <= j < t.rows.len() implies row_fits(#[trigger] t.rows[j], t.ncols, n) by {
        if j != i {
            assert(row_fits(g.rows[j], g.ncols, n));
        }
    }
}

proof fn lemma_line_feed(g: GridState, n: int)
    requires
        fits(g, n),
    ensures
        fits(g.line_feed(), n),
{
    if g.row == g.bottom {
        lemma_lines_up(g, g.top, g.bottom, 1, n);
    }
}

proof fn lemma_fitted(g: GridState, w: int, autowrap: bool, n: int)
    requires
        fits(g, n),
        1 <= w <= g.ncols,
    ensures
        fits(g.fitted(w, autowrap), n),
        g.fitted(w, autowrap).col + w <= g.ncols,
        g.fitted(w, autowrap).ncols == g.ncols,
{
    if g.col + w > g.ncols && autowrap {
        let h = GridState { col: 0, ..g };
        assert(fits(h, n));
        lemma_line_feed(h, n);
        let t = h.line_feed();
        let full = g.row_is_full();
        if g.row == g.bottom {
            if g.top < g.bottom {
                assert(row_fits(t.rows[t.row - 1], t.ncols, n));
                lemma_with_row(t, t.row - 1, RowState { wrapped: full, ..t.rows[t.row - 1] }, n);
            }
        } else if t.row > g.row {
            assert(row_fits(t.rows[g.row], t.ncols, n));
            lemma_with_row(t, g.row, RowState { wrapped: full, ..t.rows[g.row] }, n);
        }
    }
}

proof fn lemma_drawn(g: GridState, c: char, a: Attrs, autowrap: bool, insert: bool, n: int)
    requires
        fits(g, n),
        linked(a, n),
    ensures
        fits(g.drawn(c, a, autowrap, insert), n),
{
    let w = columns(c);
    if undrawn(c) || w > g.ncols {
    } else if w == 0 {
        if let Some((r, k)) = g.base_cell() {
            let row = g.rows[r];
            assert(row_fits(row, g.ncols, n));
            let cells = row.cells.update(k, row.cells[k].appended(c));
            assert(0 <= k < row.cells.len());
            assert(linked(row.cells[k].attrs, n));
            assert forall|i: int| 0 <= i < cells.len() implies linked(
                (#[trigger] cells[i]).attrs,
                n,
            ) by {
                assert(linked(row.cells[i].attrs, n));
            }
            lemma_with_row(g, r, RowState { cells, ..row }, n);
        }
    } else {
        lemma_fitted(g, w, autowrap, n);
        let h = g.fitted(w, autowrap);
        let row = h.rows[h.row];
        assert(row_fits(row, h.ncols, n));
        let cells = if insert {
            lemma_shifted_right(row.cells, h.col, w, n);
            shifted_right(row.cells, h.col, w)
        } else {
            row.cells
        };
        lemma_written(cells, h.col, c, a, n);
        lemma_with_row(h, h.row, RowState { cells: written(cells, h.col, c, a), ..row }, n);
    }
}

proof fn lemma_row_erased(g: GridState, x: int, y: int, a: Attrs, n: int)
    requires
        fits(g, n),
    ensures
        fits(g.row_erased(x, y, a), n),
{
    assert(row_fits(g.rows[g.row], g.ncols, n));
    lemma_erased(g.rows[g.row], x, y, a, n);
    lemma_with_row(g, g.row, erased(g.rows[g.row], x, y, a), n);
}

proof fn lemma_screen_erased(g: GridState, mode: int, a: Attrs, n: int)
    requires
        fits(g, n),
    ensures
        fits(g.screen_erased(mode, a), n),
{
    let t = g.screen_erased(mode, a);
    let (x, y) = g.erase_span(mode);
    assert forall|i: int| 0 <= i < t.rows.len() implies row_fits(#[trigger] t.rows[i], t.ncols, n) by {
        assert(row_fits(g.rows[i], g.ncols, n));
        lemma_erased(g.rows[i], x, y, a, n);
        lemma_erased(g.rows[i], 0, g.ncols, a, n);
    }
}

proof fn lemma_cells_moved(g: GridState, k: int, n: int)
    requires
        fits(g, n),
        k >= 0,
    ensures
        fits(g.cells_inserted(k), n),
        fits(g.cells_deleted(k), n),
{
    let row = g.rows[g.row];
    assert(row_fits(row, g.ncols, n));
    let m = least(k, g.ncols - g.col);
    lemma_shifted_right(row.cells, g.col, m, n);
    lemma_shifted_left(row.cells, g.col, m, n);
    lemma_with_row(
        g,
        g.row,
        RowState { cells: shifted_right(row.cells, g.col, m), ..row },
        n,
    );
    lemma_with_row(g, g.row, RowState { cells: shifted_left(row.cells, g.col, m), ..row }, n);
}

proof fn lemma_sized(g: GridState, rows: int, cols: int, n: int)
    requires
        fits(g, n),
        rows >= 1,
        cols >= 1,
    ensures
        grid_linked(g.sized(rows, cols), n),
{
    let t = g.sized(rows, cols);
    lemma_blank(cols, n);
    assert forall|i: int| 0 <= i < t.rows.len() implies cells_linked(
        (#[trigger] t.rows[i]).cells,
        n,
    ) by {
        if i < g.rows.len() {
            assert(row_fits(g.rows[i], g.ncols, n));
            lemma_resized(g.rows[i], cols, n);
        }
    }
}

proof fn lemma_more_links(g: GridState, n: int, m: int)
    requires
        fits(g, n),
        n <= m,
    ensures
        fits(g, m),
{
    assert forall|i: int| 0 <= i < g.rows.len() implies row_fits(#[trigger] g.rows[i], g.ncols, m) by {
        assert(row_fits(g.rows[i], g.ncols, n));
        assert forall|c: int| 0 <= c < g.rows[i].cells.len() implies linked(
            (#[trigger] g.rows[i].cells[c]).attrs,
            m,
        ) by {
            assert(linked(g.rows[i].cells[c].attrs, n));
        }
    }
}

// ---- screens ----

spec fn holds(s: ScreenState) -> bool {
    let n = s.links.len() as int;
    &&& fits(s.grid, n)
    &&& fits(s.other, n)
    &&& linked(s.modes.attrs, n)
    &&& linked(s.modes.saved_attrs, n)
}

proof fn lemma_holds(s: ScreenState)
    requires
        s.ok(),
        links_known(s),
    ensures
        holds(s),
{
    let n = s.links.len() as int;
    assert forall|i: int| 0 <= i < s.grid.rows.len() implies row_fits(
        #[trigger] s.grid.rows[i],
        s.grid.ncols,
        n,
    ) by {
        assert(cells_linked(s.grid.rows[i].cells, n));
        assert(whole(s.grid.rows[i].cells));
        assert(!is_half(s.grid.rows[i].cells, 0));
    }
    assert forall|i: int| 0 <= i < s.other.rows.len() implies row_fits(
        #[trigger] s.other.rows[i],
        s.other.ncols,
        n,
    ) by {
        assert(cells_linked(s.other.rows[i].cells, n));
        assert(whole(s.other.rows[i].cells));
        assert(!is_half(s.other.rows[i].cells, 0));
    }
}

proof fn lemma_known(s: ScreenState)
    requires
        holds(s),
    ensures
        links_known(s),
{
    let n = s.links.len() as int;
    assert forall|i: int| 0 <= i < s.grid.rows.len() implies cells_linked(
        (#[trigger] s.grid.rows[i]).cells,
        n,
    ) by {
        assert(row_fits(s.grid.rows[i], s.grid.ncols, n));
    }
    assert forall|i: int| 0 <= i < s.other.rows.len() implies cells_linked(
        (#[trigger] s.other.rows[i]).cells,
        n,
    ) by {
        assert(row_fits(s.other.rows[i], s.other.ncols, n));
    }
}

proof fn lemma_texted(s: ScreenState, c: char)
    requires
        holds(s),
    ensures
        holds(s.texted(c)),
{
    lemma_drawn(
        s.grid,
        c,
        s.modes.attrs,
        s.modes.autowrap,
        s.modes.insert,
        s.links.len() as int,
    );
}

proof fn lemma_repeated(s: ScreenState, c: char, k: nat)
    requires
        holds(s),
    ensures
        holds(s.repeated(c, k)),
    decreases k,
{
    if k > 0 {
        lemma_texted(s, c);
        lemma_repeated(s.texted(c), c, (k - 1) as nat);
    }
}

proof fn lemma_private(s: ScreenState, m: Option<u16>, on: bool)
    requires
        holds(s),
    ensures
        s.private_moded(m, on) matches Some(t) ==> holds(t),
{
    let n = s.links.len() as int;
    lemma_empty_fits(s.grid.rows.len() as int, s.grid.ncols, n);
    lemma_empty_fits(s.other.rows.len() as int, s.other.ncols, n);
}

proof fn lemma_all_moded(s: ScreenState, p: Seq<Seq<u16>>, i: int, private: bool, on: bool)
    requires
        holds(s),
        0 <= i,
    ensures
        holds(s.all_moded(p, i, private, on).0),
    decreases p.len() - i,
{
    if i < p.len() {
        let m = single(p, i);
        lemma_private(s, m, on);
        let next = if private {
            s.private_moded(m, on)
        } else {
            s.moded(m, on)
        };
        match next {
            Some(t) => lemma_all_moded(t, p, i + 1, private, on),
            None => lemma_all_moded(s, p, i + 1, private, on),
        }
    }
}

proof fn lemma_sgr_keeps_link(a: Attrs, p: Seq<Seq<u16>>, i: int)
    requires
        0 <= i,
    ensures
        sgr_from(a, p, i).0.link == a.link,
    decreases p.len() - i,
{
    if i < p.len() {
        if p[i].len() == 1 && takes_color(p[i][0]) {
            if let Some((c, k)) = following_color(p, i + 1) {
                lemma_sgr_keeps_link(with_color(a, p[i][0], c), p, i + 1 + k);
            }
        } else {
            match one_sgr(a, p[i]) {
                Some(x) => lemma_sgr_keeps_link(x, p, i + 1),
                None => lemma_sgr_keeps_link(a, p, i + 1),
            }
        }
    }
}

#[verifier::opaque]
spec fn keeps(s: ScreenState, a: Action, p: Seq<Seq<u16>>) -> bool {
    links_known(s.applied(a, p).0)
}

proof fn lemma_same_rows(s: ScreenState, t: ScreenState)
    requires
        links_known(s),
        t.grid.rows == s.grid.rows,
        t.other.rows == s.other.rows,
        t.links == s.links,
        linked(t.modes.attrs, t.links.len() as int),
        linked(t.modes.saved_attrs, t.links.len() as int),
    ensures
        links_known(t),
{
}

proof fn lemma_on(s: ScreenState, g: GridState)
    requires
        holds(s),
        fits(g, s.links.len() as int),
    ensures
        links_known(s.on(g)),
{
    lemma_known(s.on(g));
}

proof fn lemma_moves(s: ScreenState, a: Action, p: Seq<Seq<u16>>)
    requires
        links_known(s),
        a is Bs || a is Tab || a is Cht || a is Cbt || a is Cr || a is Cuu || a is Cud || a is Cuf
            || a is Cub || a is Cnl || a is Cpl,
    ensures
        keeps(s, a, p),
{
    reveal(keeps);
    lemma_same_rows(s, s.applied(a, p).0);
}

proof fn lemma_places(s: ScreenState, a: Action, p: Seq<Seq<u16>>)
    requires
        links_known(s),
        a is Cha || a is Vpa || a is Cup || a is Scorc || a is Scosc || a is Decstbm || a is Hts
            || a is Tbc || a is Decsc || a is Decrc,
    ensures
        keeps(s, a, p),
{
    reveal(keeps);
    lemma_same_rows(s, s.applied(a, p).0);
}

proof fn lemma_rest(s: ScreenState, a: Action, p: Seq<Seq<u16>>)
    requires
        links_known(s),
        a is Deckpam || a is Deckpnm || a is TitlePush || a is TitlePop || a is Decscusr || a is Decstr
            || a is UnhandledCsi || a is Ignore || a is AudibleBell || a is VisualBell || a is Resize
            || a is UnhandledChar || a is UnhandledControl || a is UnhandledEscape,
    ensures
        keeps(s, a, p),
{
    reveal(keeps);
    lemma_same_rows(s, s.applied(a, p).0);
}

proof fn lemma_lines(s: ScreenState, a: Action, p: Seq<Seq<u16>>)
    requires
        holds(s),
        a is Lf || a is Vt || a is Ff || a is Ri || a is Il || a is Dl || a is Su || a is Sd,
    ensures
        keeps(s, a, p),
{
    reveal(keeps);
    let g = s.grid;
    let n = s.links.len() as int;
    lemma_line_feed(g, n);
    lemma_lines_down(g, g.top, g.bottom, 1, n);
    match a {
        Action::Il(k) => {
            if g.in_region() {
                lemma_lines_down(g, g.row, g.bottom, least(k as int, g.bottom - g.row + 1), n);
            }
            lemma_on(s, g.lines_inserted(k as int));
        },
        Action::Dl(k) => {
            if g.in_region() {
                lemma_lines_up(g, g.row, g.bottom, least(k as int, g.bottom - g.row + 1), n);
            }
            lemma_on(s, g.lines_deleted(k as int));
        },
        Action::Su(k) => {
            lemma_lines_up(g, g.top, g.bottom, least(k as int, g.bottom - g.top + 1), n);
            lemma_on(s, g.scrolled_up(k as int));
        },
        Action::Sd(k) => {
            lemma_lines_down(g, g.top, g.bottom, least(k as int, g.bottom - g.top + 1), n);
            lemma_on(s, g.scrolled_down(k as int));
        },
        Action::Ri => {
            lemma_on(s, g.reverse_feed());
        },
        _ => {
            lemma_on(s, g.line_feed());
        },
    }
}

proof fn lemma_edits(s: ScreenState, a: Action, p: Seq<Seq<u16>>)
    requires
        holds(s),
        a is Ich || a is Dch || a is Ech || a is Ed || a is Decsed || a is El || a is Decsel,
    ensures
        keeps(s, a, p),
{
    reveal(keeps);
    lemma_known(s);
    let g = s.grid;
    let n = s.links.len() as int;
    let at = s.modes.attrs;
    match a {
        Action::Ich(k) => {
            lemma_cells_moved(g, k as int, n);
            lemma_on(s, g.cells_inserted(k as int));
        },
        Action::Dch(k) => {
            lemma_cells_moved(g, k as int, n);
            lemma_on(s, g.cells_deleted(k as int));
        },
        Action::Ech(k) => {
            lemma_row_erased(g, g.col, least(g.col + k, g.ncols), at, n);
            lemma_on(s, g.cells_erased(k as int, at));
        },
        Action::Ed(k) | Action::Decsed(k) => {
            lemma_screen_erased(g, k as int, at, n);
            lemma_on(s, g.screen_erased(k as int, at));
        },
        Action::El(k) | Action::Decsel(k) => {
            let (x, y) = g.erase_span(k as int);
            lemma_row_erased(g, x, y, at, n);
            lemma_on(s, g.line_erased(k as int, at));
        },
        _ => {},
    }
}

proof fn lemma_text(s: ScreenState, c: char, p: Seq<Seq<u16>>)
    requires
        holds(s),
    ensures
        keeps(s, Action::Text(c), p),
{
    lemma_texted(s, c);
    lemma_known(s.texted(c));
    reveal(keeps);
}

proof fn lemma_rep(s: ScreenState, k: u16, p: Seq<Seq<u16>>)
    requires
        holds(s),
    ensures
        keeps(s, Action::Rep(k), p),
{
    lemma_known(s);
    if let Some(c) = s.modes.last {
        lemma_repeated(s, c, k as nat);
        lemma_known(s.repeated(c, k as nat));
    }
    reveal(keeps);
}

proof fn lemma_modes(s: ScreenState, a: Action, private: bool, on: bool, p: Seq<Seq<u16>>)
    requires
        holds(s),
        s.applied(a, p) == s.all_moded(p, 0, private, on),
    ensures
        keeps(s, a, p),
{
    lemma_all_moded(s, p, 0, private, on);
    lemma_known(s.all_moded(p, 0, private, on).0);
    reveal(keeps);
}

proof fn lemma_sgr(s: ScreenState, p: Seq<Seq<u16>>)
    requires
        links_known(s),
    ensures
        keeps(s, Action::Sgr, p),
{
    lemma_sgr_keeps_link(s.modes.attrs, p, 0);
    reveal(keeps);
    lemma_same_rows(s, s.applied(Action::Sgr, p).0);
}

proof fn lemma_ris(s: ScreenState, p: Seq<Seq<u16>>)
    requires
        holds(s),
    ensures
        keeps(s, Action::Ris, p),
{
    lemma_empty_fits(s.grid.rows.len() as int, s.grid.ncols, 0);
    let t = fresh_screen(s.grid.rows.len() as int, s.grid.ncols);
    lemma_known(t);
    reveal(keeps);
}

proof fn lemma_applied(s: ScreenState, a: Action, p: Seq<Seq<u16>>)
    requires
        s.ok(),
        links_known(s),
    ensures
        keeps(s, a, p),
{
    lemma_holds(s);
    if a is Bs || a is Tab || a is Cht || a is Cbt || a is Cr || a is Cuu || a is Cud || a is Cuf
        || a is Cub || a is Cnl || a is Cpl {
        lemma_moves(s, a, p);
    } else if a is Cha || a is Vpa || a is Cup || a is Scorc || a is Scosc || a is Decstbm || a is Hts
        || a is Tbc || a is Decsc || a is Decrc {
        lemma_places(s, a, p);
    } else if a is Lf || a is Vt || a is Ff || a is Ri || a is Il || a is Dl || a is Su || a is Sd {
        lemma_lines(s, a, p);
    } else if a is Ich || a is Dch || a is Ech || a is Ed || a is Decsed || a is El || a is Decsel {
        lemma_edits(s, a, p);
    } else {
        match a {
            Action::Text(c) => lemma_text(s, c, p),
            Action::Rep(k) => lemma_rep(s, k, p),
            Action::Sm => lemma_modes(s, a, false, true, p),
            Action::Rm => lemma_modes(s, a, false, false, p),
            Action::Decset => lemma_modes(s, a, true, true, p),
            Action::Decrst => lemma_modes(s, a, true, false, p),
            Action::Sgr => lemma_sgr(s, p),
            Action::Ris => lemma_ris(s, p),
            _ => lemma_rest(s, a, p),
        }
    }
}

/// No action leaves a link on the screen that has no target, and none has the number zero.
pub proof fn law_actions_keep_links_known(s: ScreenState, a: Action, p: Seq<Seq<u16>>)
    requires
        s.ok(),
        links_known(s),
    ensures
        links_known(s.applied(a, p).0),
{
    lemma_applied(s, a, p);
    reveal(keeps);
}

proof fn lemma_link_number(links: Seq<Seq<u8>>, uri: Seq<u8>, i: int)
    requires
        0 <= i <= links.len(),
    ensures
        1 <= link_number(links, uri, i) <= links.len() + 1,
    decreases links.len() - i,
{
    if i < links.len() && links[i] != uri {
        lemma_link_number(links, uri, i + 1);
    }
}

/// Nor does what an OSC sequence asks for: a link that is opened gets its number with its
/// target.
pub proof fn law_commands_keep_links_known(s: ScreenState, a: OscView)
    requires
        s.ok(),
        links_known(s),
    ensures
        links_known(s.commanded(a)),
{
    lemma_holds(s);
    let n = s.links.len() as int;
    if let OscView::LinkOpen(uri) = a {
        lemma_link_number(s.links, uri, 0);
        lemma_more_links(s.grid, n, n + 1);
        lemma_more_links(s.other, n, n + 1);
        lemma_known(s.commanded(a));
    } else {
        lemma_same_rows(s, s.commanded(a));
    }
}

/// A fresh screen has no links.
pub proof fn law_fresh_screen_has_no_links(rows: int, cols: int)
    requires
        rows >= 1,
        cols >= 1,
    ensures
        links_known(fresh_screen(rows, cols)),
{
    lemma_empty_fits(rows, cols, 0);
    lemma_known(fresh_screen(rows, cols));
}

/// A screen of another size still knows its links.
pub proof fn law_sizes_keep_links_known(s: ScreenState, rows: int, cols: int)
    requires
        s.ok(),
        links_known(s),
    ensures
        links_known(s.sized(rows, cols)),
{
    lemma_holds(s);
    let n = s.links.len() as int;
    lemma_sized(s.grid, most(rows, 1), most(cols, 1), n);
    lemma_sized(s.other, most(rows, 1), most(cols, 1), n);
}

} // verus!
