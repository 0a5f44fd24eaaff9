//! What becomes of an image on a screen: it scrolls with the text, is cut off at the top, and is
//! gone when none of its cells is left.
use crate::pty::{
    found, framed, is_of, mark_from, moved, tag_from, tag_in_row, top_left, PlacedView,
};
use crate::vt::attrs::Attrs;
use crate::vt::cell::is_wide_char;
use crate::vt::grid::GridState;
use crate::vt::row::{erased, written, RowState};
use crate::vt::screen::ScreenState;
use vstd::prelude::*;

verus! {

/// Whether a place of the screen is one of an image.
pub open spec fn covers(rows: Seq<RowState>, mark: char, r: int, c: int) -> bool {
    0 <= r < rows.len() && 0 <= c < rows[r].cells.len() && is_of(rows[r].cells[c], mark)
}

/// Whether every cell of an image that is left says that its top left is at `at`.
pub open spec fn laid(rows: Seq<RowState>, mark: char, at: (int, int)) -> bool {
    forall|r: int, c: int| #[trigger]
        covers(rows, mark, r, c) ==> {
            let t = rows[r].cells[c].data->0;
            r - t.row == at.0 && c - t.col == at.1
        }
}

proof fn lemma_tag_in_row(rows: Seq<RowState>, mark: char, r: int, c: int)
    requires
        0 <= r < rows.len(),
        0 <= c <= rows[r].cells.len(),
    ensures
        c <= tag_in_row(rows[r].cells, mark, c) <= rows[r].cells.len(),
        tag_in_row(rows[r].cells, mark, c) < rows[r].cells.len() ==> covers(
            rows,
            mark,
            r,
            tag_in_row(rows[r].cells, mark, c),
        ),
        forall|j: int| #[trigger]
            covers(rows, mark, r, j) && j >= c ==> tag_in_row(rows[r].cells, mark, c) <= j,
    decreases rows[r].cells.len() - c,
{
    if c < rows[r].cells.len() && !is_of(rows[r].cells[c], mark) {
        lemma_tag_in_row(rows, mark, r, c + 1);
    }
}

proof fn lemma_tag_from(rows: Seq<RowState>, mark: char, r: int)
    requires
        0 <= r,
    ensures
        match tag_from(rows, mark, r) {
            Some((a, b)) => covers(rows, mark, a, b),
            None => forall|i: int, j: int| i >= r ==> !(#[trigger] covers(rows, mark, i, j)),
        },
    decreases rows.len() - r,
{
    if r < rows.len() {
        lemma_tag_in_row(rows, mark, r, 0);
        lemma_tag_from(rows, mark, r + 1);
    }
}

/// An image is somewhere as long as one of its cells is left, and as long as they agree it is
/// where any of them says; it is nowhere when none is left.
pub proof fn law_any_cell_tells_where_an_image_is(
    rows: Seq<RowState>,
    mark: char,
    at: (int, int),
    r: int,
    c: int,
)
    requires
        laid(rows, mark, at),
    ensures
        covers(rows, mark, r, c) ==> top_left(rows, mark) == Some(at),
        top_left(rows, mark) is Some ==> exists|i: int, j: int| covers(rows, mark, i, j),
{
    lemma_tag_from(rows, mark, 0);
    if let Some((a, b)) = tag_from(rows, mark, 0) {
        assert(covers(rows, mark, a, b));
    }
}

proof fn lemma_found_keeps(
    screen: Seq<RowState>,
    rows: Seq<Seq<crate::model::CellView>>,
    images: Seq<PlacedView>,
    i: int,
    at: (int, int),
) -> (k: int)
    requires
        0 <= i < images.len(),
        top_left(screen, images[i].mark) == Some(at),
    ensures
        0 <= k < found(screen, rows, images).1.len(),
        found(screen, rows, images).1[k] == moved(images[i], at),
    decreases images.len(),
{
    let kept = found(screen, rows, images.drop_last()).1;
    if i == images.len() - 1 {
        kept.len() as int
    } else {
        let k = lemma_found_keeps(screen, rows, images.drop_last(), i, at);
        assert(images.drop_last()[i] == images[i]);
        k
    }
}

/// An image of which any cell is left on the screen is shown, with its top left where that cell
/// says, above the screen where it has scrolled off the top.
pub proof fn law_image_with_a_cell_left_is_shown(
    s: ScreenState,
    images: Seq<PlacedView>,
    i: int,
    at: (int, int),
    r: int,
    c: int,
)
    requires
        0 <= i < images.len(),
        laid(s.grid.rows, images[i].mark, at),
        covers(s.grid.rows, images[i].mark, r, c),
    ensures
        exists|k: int|
            0 <= k < framed(s, images).0.images.len() && #[trigger] framed(s, images).0.images[k]
                == moved(images[i], at).img,
{
    law_any_cell_tells_where_an_image_is(s.grid.rows, images[i].mark, at, r, c);
    let rows = crate::parse::shown_grid(s).rows;
    let k = lemma_found_keeps(s.grid.rows, rows, images, i, at);
    assert(framed(s, images).0.images[k] == moved(images[i], at).img);
}

/// An image of which no cell is left, and whose mark is not shown either, is not shown.
pub proof fn law_image_without_cells_is_gone(
    s: ScreenState,
    images: Seq<PlacedView>,
    gone: PlacedView,
)
    requires
        forall|r: int, c: int| !(#[trigger] covers(s.grid.rows, gone.mark, r, c)),
        mark_from(
            found(s.grid.rows, crate::parse::shown_grid(s).rows, images).0,
            gone.mark,
            0,
        ) is None,
    ensures
        framed(s, images.push(gone)) == framed(s, images),
{
    lemma_tag_from(s.grid.rows, gone.mark, 0);
    if let Some((a, b)) = tag_from(s.grid.rows, gone.mark, 0) {
        assert(covers(s.grid.rows, gone.mark, a, b));
    }
    assert(images.push(gone).drop_last() =~= images);
}

/// Drawing one more row of an image, in its place below the others, keeps its cells in
/// agreement.
pub proof fn law_drawn_rows_agree(g: GridState, mark: char, col: int, n: int, row: u16)
    requires
        g.ok(),
        0 <= col,
        laid(g.rows, mark, (g.row - row, col)),
    ensures
        laid(g.stamped(col, n, mark, row).rows, mark, (g.row - row, col)),
{
    let t = g.stamped(col, n, mark, row).rows;
    assert forall|r: int, c: int| #[trigger] covers(t, mark, r, c) implies ({
        let d = t[r].cells[c].data->0;
        r - d.row == g.row - row && c - d.col == col
    }) by {
        assert(g.rows[r].cells.len() == g.ncols);
        if r == g.row && col <= c < col + n {
        } else {
            assert(t[r].cells[c] == g.rows[r].cells[c]);
            assert(covers(g.rows, mark, r, c));
        }
    }
}

/// When the whole screen scrolls up, an image goes up with it, and its top left may come to be
/// above the screen.
pub proof fn law_image_scrolls_with_the_text(g: GridState, mark: char, at: (int, int), n: int)
    requires
        g.ok(),
        g.top == 0,
        g.bottom == g.rows.len() - 1,
        0 <= n <= g.rows.len(),
        laid(g.rows, mark, at),
    ensures
        laid(g.scrolled_up(n).rows, mark, (at.0 - n, at.1)),
        forall|r: int, c: int|
            r >= n && #[trigger] covers(g.rows, mark, r, c) ==> covers(
                g.scrolled_up(n).rows,
                mark,
                r - n,
                c,
            ),
{
    let t = g.scrolled_up(n).rows;
    assert forall|r: int, c: int| #[trigger] covers(t, mark, r, c) implies ({
        let d = t[r].cells[c].data->0;
        r - d.row == at.0 - n && c - d.col == at.1
    }) by {
        if r + n < g.rows.len() {
            assert(t[r] == g.rows[r + n]);
            assert(covers(g.rows, mark, r + n, c));
        }
    }
    assert forall|r: int, c: int| r >= n && #[trigger] covers(g.rows, mark, r, c) implies covers(
        t,
        mark,
        r - n,
        c,
    ) by {
        assert(t[r - n] == g.rows[r]);
    }
}

/// A cell that is written or erased is no longer one of an image.
pub proof fn law_overwritten_cells_are_lost(
    row: RowState,
    mark: char,
    col: int,
    c: char,
    a: Attrs,
    end: int,
)
    requires
        0 <= col < end <= row.cells.len(),
        is_wide_char(c) ==> col + 1 < row.cells.len(),
    ensures
        !is_of(written(row.cells, col, c, a)[col], mark),
        is_wide_char(c) ==> !is_of(written(row.cells, col, c, a)[col + 1], mark),
        forall|j: int|
            col <= j < end ==> !(#[trigger] is_of(erased(row, col, end, a).cells[j], mark)),
{
}

} // verus!
