//! A command in a terminal of its own: sizes, images on the screen, and notices of a hub.
use crate::model::{
    blank_cell, images_view, lemma_images_push, row_view, rows_view, CellView, Frame, FrameView,
    Grid, GridView, ImagePlacement, PlacementView, StyledCell,
};
use crate::parse::{grid_from_screen, shown_grid};
use crate::vt::grid::most;
use crate::vt::row::{Glyph, RowState};
use crate::vt::screen::{Screen, ScreenState};
use vstd::prelude::*;
use vstd::string::*;

verus! {

/// The cell that is assumed where a terminal reports no pixels.
pub const FALLBACK_CELL: (u16, u16) = (8, 16);

/// The least milliseconds between two frames.
pub const MIN_FRAME_MS: u64 = 33;

/// The size of a terminal, in cells and in pixels.
#[derive(Debug, Clone, Copy, PartialEq, Eq, Structural)]
pub struct TermGeom {
    pub cols: u16,
    pub rows: u16,
    pub px_w: u16,
    pub px_h: u16,
}

/// Pixels: those reported, else those of cells of an assumed size, up to the largest number.
pub open spec fn pixels(reported: u16, cells: u16, cell: u16) -> u16 {
    if reported > 0 {
        reported
    } else if cells * cell > u16::MAX {
        u16::MAX
    } else {
        (cells * cell) as u16
    }
}

fn px(reported: u16, cells: u16, cell: u16) -> (r: u16)
    ensures
        r == pixels(reported, cells, cell),
{
    if reported > 0 {
        reported
    } else {
        assert(0 <= cells * cell <= 0xffff * 0xffff) by (nonlinear_arith)
            requires
                0 <= cells <= 0xffff,
                0 <= cell <= 0xffff,
        ;
        let v: u32 = cells as u32 * cell as u32;
        if v > 0xffff {
            0xffff
        } else {
            v as u16
        }
    }
}

/// The size of a terminal, from what it reports: columns, rows, and pixels. `None` where it
/// reports no columns.
pub fn term_geom(col: u16, row: u16, xpixel: u16, ypixel: u16) -> (r: Option<TermGeom>)
    ensures
        r == (if col == 0 {
            None
        } else {
            Some(
                TermGeom {
                    cols: col,
                    rows: row,
                    px_w: pixels(xpixel, col, FALLBACK_CELL.0),
                    px_h: pixels(ypixel, row, FALLBACK_CELL.1),
                },
            )
        }),
{
    if col == 0 {
        return None;
    }
    Some(
        TermGeom {
            cols: col,
            rows: row,
            px_w: px(xpixel, col, FALLBACK_CELL.0),
            px_h: px(ypixel, row, FALLBACK_CELL.1),
        },
    )
}

/// The size that is taken where there is no terminal.
pub fn default_geom() -> (r: TermGeom)
    ensures
        r == (TermGeom { cols: 80, rows: 24, px_w: 640, px_h: 384 }),
{
    TermGeom { cols: 80, rows: 24, px_w: 640, px_h: 384 }
}

/// At least one.
pub open spec fn at_least_one(n: int) -> int {
    if n < 1 {
        1
    } else {
        n
    }
}

/// The size of a cell in pixels.
pub fn cell_size(g: &TermGeom) -> (r: (u16, u16))
    ensures
        r.0 == at_least_one(g.px_w as int / at_least_one(g.cols as int)),
        r.1 == at_least_one(g.px_h as int / at_least_one(g.rows as int)),
{
    let c: u16 = if g.cols < 1 {
        1
    } else {
        g.cols
    };
    let r: u16 = if g.rows < 1 {
        1
    } else {
        g.rows
    };
    let w: u16 = g.px_w / c;
    let h: u16 = g.px_h / r;
    (
        if w < 1 {
            1
        } else {
            w
        },
        if h < 1 {
            1
        } else {
            h
        },
    )
}

/// The cells that pixels cover, in sixteen bits, and at least one.
pub open spec fn covered(px: u32, cell: u16) -> u16 {
    at_least_one((px + cell - 1) / cell as int % 65536) as u16
}

fn cover(px: u32, cell: u16) -> (r: u16)
    requires
        cell > 0,
    ensures
        r == covered(px, cell),
{
    let n: u64 = (px as u64 + cell as u64 - 1) / cell as u64 % 65536;
    if n < 1 {
        1
    } else {
        n as u16
    }
}

/// The cells that an image takes: what the application said, else what its pixels cover.
pub open spec fn cells_of_image(
    cells: Option<(u16, u16)>,
    px: Option<(u32, u32)>,
    cell: (u16, u16),
) -> Option<(u16, u16)> {
    match cells {
        Some(c) => Some(c),
        None => match px {
            Some((w, h)) => Some((covered(w, cell.0), covered(h, cell.1))),
            None => None,
        },
    }
}

/// The cells that an image takes.
pub fn image_cells(cells: Option<(u16, u16)>, px: Option<(u32, u32)>, cell: (u16, u16)) -> (r: Option<
    (u16, u16),
>)
    requires
        cell.0 > 0,
        cell.1 > 0,
    ensures
        r == cells_of_image(cells, px, cell),
{
    match cells {
        Some(c) => Some(c),
        None => match px {
            Some((w, h)) => Some((cover(w, cell.0), cover(h, cell.1))),
            None => None,
        },
    }
}

/// The mark of the `seq`-th image: a private-use character, which comes again after 6400.
pub open spec fn mark_of(seq: u32) -> char {
    ((0xE000 + seq % 6400) as u32) as char
}

/// The mark of the `seq`-th image.
pub fn mark_for(seq: u32) -> (r: char)
    ensures
        r == mark_of(seq),
{
    let n: u32 = 0xE000 + seq % 6400;
    match char::from_u32(n) {
        Some(c) => {
            proof {
                vstd::utf8::char_u32_cast(c, n);
            }
            c
        },
        None => ' ',
    }
}

/// How long a frame is held back while a program is in the middle of an update.
pub const UPDATE_LIMIT_MS: u64 = 1000;

/// Whether a frame is due `elapsed_ms` after the last: where something changed, and not in
/// the middle of an update, unless that takes too long.
pub open spec fn due(dirty: bool, updating: bool, elapsed_ms: u64) -> bool {
    dirty && elapsed_ms >= (if updating {
        UPDATE_LIMIT_MS
    } else {
        MIN_FRAME_MS
    })
}

/// Whether a frame is due `elapsed_ms` after the last.
pub fn frame_due(dirty: bool, updating: bool, elapsed_ms: u64) -> (r: bool)
    ensures
        r == due(dirty, updating, elapsed_ms),
{
    let wait: u64 = if updating {
        UPDATE_LIMIT_MS
    } else {
        MIN_FRAME_MS
    };
    dirty && elapsed_ms >= wait
}

// ---- images on the screen ----

/// An image, and its mark: the character that stands in the screen at its top left, and that
/// the tags of its cells bear.
pub struct Placed {
    pub mark: char,
    pub img: ImagePlacement,
}

/// The model of [`Placed`].
pub ghost struct PlacedView {
    pub mark: char,
    pub img: PlacementView,
}

/// The models of images.
pub open spec fn placed_views(s: Seq<Placed>) -> Seq<PlacedView> {
    Seq::new(s.len(), |i: int| PlacedView { mark: s[i].mark, img: s[i].img@ })
}

/// Whether a cell's text begins with a mark.
pub open spec fn bears(c: CellView, mark: char) -> bool {
    c.text.len() > 0 && c.text[0] == mark
}

/// The first cell of a row from `c` on that bears a mark; the length of the row where there is
/// none.
pub open spec fn mark_in_row(row: Seq<CellView>, mark: char, c: int) -> int
    decreases row.len() - c,
{
    if 0 <= c < row.len() && !bears(row[c], mark) {
        mark_in_row(row, mark, c + 1)
    } else {
        c
    }
}

/// The first cell from row `r` on that bears a mark.
pub open spec fn mark_from(rows: Seq<Seq<CellView>>, mark: char, r: int) -> Option<(int, int)>
    decreases rows.len() - r,
{
    if !(0 <= r < rows.len()) {
        None
    } else if mark_in_row(rows[r], mark, 0) < rows[r].len() {
        Some((r, mark_in_row(rows[r], mark, 0)))
    } else {
        mark_from(rows, mark, r + 1)
    }
}

/// Rows with a cell made blank.
pub open spec fn scrubbed(rows: Seq<Seq<CellView>>, at: (int, int)) -> Seq<Seq<CellView>> {
    rows.update(at.0, rows[at.0].update(at.1, blank_cell()))
}

/// Whether a cell is one of an image.
pub open spec fn is_of(c: Glyph, mark: char) -> bool {
    c.data matches Some(t) && t.mark == mark
}

/// The first cell of a row from `c` on that is one of an image; the length of the row where
/// there is none.
pub open spec fn tag_in_row(cells: Seq<Glyph>, mark: char, c: int) -> int
    decreases cells.len() - c,
{
    if 0 <= c < cells.len() && !is_of(cells[c], mark) {
        tag_in_row(cells, mark, c + 1)
    } else {
        c
    }
}

/// The first cell from row `r` on that is one of an image.
pub open spec fn tag_from(rows: Seq<RowState>, mark: char, r: int) -> Option<(int, int)>
    decreases rows.len() - r,
{
    if !(0 <= r < rows.len()) {
        None
    } else if tag_in_row(rows[r].cells, mark, 0) < rows[r].cells.len() {
        Some((r, tag_in_row(rows[r].cells, mark, 0)))
    } else {
        tag_from(rows, mark, r + 1)
    }
}

/// Where the top left of an image is, by the first of its cells that is left: it may have
/// scrolled off the top, and be above the screen.
pub open spec fn top_left(rows: Seq<RowState>, mark: char) -> Option<(int, int)> {
    match tag_from(rows, mark, 0) {
        Some((r, c)) => {
            let t = rows[r].cells[c].data->0;
            Some((r - t.row, c - t.col))
        },
        None => None,
    }
}

/// An image with its top left in a place; one to the left of the screen is at its edge.
pub open spec fn moved(p: PlacedView, at: (int, int)) -> PlacedView {
    PlacedView {
        img: PlacementView { row: row_number(at.0), col: col_number(most(at.1, 0)), ..p.img },
        ..p
    }
}

/// Where an image is: where its cells say, or where its mark stands among the cells of its row.
pub open spec fn spot(screen: Seq<RowState>, mark_at: Option<(int, int)>, mark: char) -> Option<
    (int, int),
> {
    match top_left(screen, mark) {
        Some(at) => Some(at),
        None => mark_at,
    }
}

/// Rows without the mark at a cell.
pub open spec fn unmarked_rows(rows: Seq<Seq<CellView>>, mark_at: Option<(int, int)>) -> Seq<
    Seq<CellView>,
> {
    match mark_at {
        Some(at) => scrubbed(rows, at),
        None => rows,
    }
}

/// Images found in turn, by their cells in the screen or by their marks in the rows that are
/// shown: these rows without the marks, and the images that are left, each where it is.
pub open spec fn found(
    screen: Seq<RowState>,
    rows: Seq<Seq<CellView>>,
    images: Seq<PlacedView>,
) -> (Seq<Seq<CellView>>, Seq<PlacedView>)
    decreases images.len(),
{
    if images.len() == 0 {
        (rows, Seq::empty())
    } else {
        let (before, kept) = found(screen, rows, images.drop_last());
        let p = images.last();
        let mark_at = mark_from(before, p.mark, 0);
        (
            unmarked_rows(before, mark_at),
            match spot(screen, mark_at, p.mark) {
                Some(at) => kept.push(moved(p, at)),
                None => kept,
            },
        )
    }
}

/// The placements of images.
pub open spec fn placements(s: Seq<PlacedView>) -> Seq<PlacementView> {
    Seq::new(s.len(), |i: int| s[i].img)
}

/// A row in the sixteen bits of a placement, of which the first is the sign.
pub open spec fn row_number(r: int) -> i16 {
    let m = r % 65536;
    (if m < 32768 {
        m
    } else {
        m - 65536
    }) as i16
}

/// A column in the sixteen bits of a placement.
pub open spec fn col_number(c: int) -> u16 {
    (c % 65536) as u16
}

/// A row in the sixteen bits of a placement.
pub(crate) fn placed_row(r: i32) -> (n: i16)
    requires
        -0x10000 <= r <= 0x10000,
    ensures
        n == row_number(r as int),
{
    let m: i32 = if r < 0 {
        (r + 0x10000) % 65536
    } else {
        r % 65536
    };
    if m < 32768 {
        m as i16
    } else {
        (m - 65536) as i16
    }
}

fn bears_mark(c: &StyledCell, mark: char) -> (r: bool)
    ensures
        r == bears(c@, mark),
{
    !c.text.as_str().is_empty() && c.text.as_str().get_char(0) == mark
}

proof fn lemma_mark_in_row(row: Seq<CellView>, mark: char, c: int)
    requires
        0 <= c <= row.len(),
    ensures
        c <= mark_in_row(row, mark, c) <= row.len(),
    decreases row.len() - c,
{
    if c < row.len() && !bears(row[c], mark) {
        lemma_mark_in_row(row, mark, c + 1);
    }
}

fn find_mark(rows: &Vec<Vec<StyledCell>>, mark: char) -> (r: Option<(usize, usize)>)
    ensures
        (match r {
            Some((a, b)) => Some((a as int, b as int)),
            None => None,
        }) == mark_from(rows_view(rows@), mark, 0),
        r matches Some((a, b)) ==> a < rows@.len() && b < rows@[a as int]@.len(),
{
    let ghost all = rows_view(rows@);
    let mut r: usize = 0;
    while r < rows.len()
        invariant
            r <= rows@.len(),
            all == rows_view(rows@),
            mark_from(all, mark, 0) == mark_from(all, mark, r as int),
        decreases rows@.len() - r,
    {
        let ghost row = all[r as int];
        assert(row == row_view(rows@[r as int]@));
        let mut c: usize = 0;
        while c < rows[r].len()
            invariant
                r < rows@.len(),
                c <= rows@[r as int]@.len(),
                row == row_view(rows@[r as int]@),
                all == rows_view(rows@),
                row == all[r as int],
                mark_from(all, mark, 0) == mark_from(all, mark, r as int),
                mark_in_row(row, mark, 0) == mark_in_row(row, mark, c as int),
            decreases rows@[r as int]@.len() - c,
        {
            assert(row[c as int] == rows@[r as int]@[c as int]@);
            if bears_mark(&rows[r][c], mark) {
                return Some((r, c));
            }
            c += 1;
        }
        r += 1;
    }
    None
}

proof fn lemma_mark_from(rows: Seq<Seq<CellView>>, mark: char, r: int)
    requires
        0 <= r,
    ensures
        mark_from(rows, mark, r) matches Some((a, b)) ==> r <= a < rows.len() && 0 <= b < rows[a].len(),
    decreases rows.len() - r,
{
    if r < rows.len() {
        lemma_mark_in_row(rows[r], mark, 0);
        lemma_mark_from(rows, mark, r + 1);
    }
}

proof fn lemma_found_shape(
    screen: Seq<RowState>,
    rows: Seq<Seq<CellView>>,
    images: Seq<PlacedView>,
)
    ensures
        found(screen, rows, images).0.len() == rows.len(),
        forall|i: int|
            0 <= i < rows.len() ==> (#[trigger] found(screen, rows, images).0[i]).len()
                == rows[i].len(),
    decreases images.len(),
{
    if images.len() > 0 {
        lemma_found_shape(screen, rows, images.drop_last());
        let before = found(screen, rows, images.drop_last()).0;
        lemma_mark_from(before, images.last().mark, 0);
        assert forall|i: int| 0 <= i < rows.len() implies (#[trigger] found(
            screen,
            rows,
            images,
        ).0[i]).len() == rows[i].len() by {
            assert(before[i].len() == rows[i].len());
        }
    }
}

fn find_tag(screen: &Screen, mark: char) -> (r: Option<(i32, i32)>)
    requires
        screen.wf(),
    ensures
        (match r {
            Some((a, b)) => Some((a as int, b as int)),
            None => None,
        }) == top_left(screen@.grid.rows, mark),
        r matches Some((a, b)) ==> -0x10000 <= a <= 0x10000 && -0x10000 <= b <= 0x10000,
{
    let ghost all = screen@.grid.rows;
    let (n, m) = screen.size();
    let mut r: u16 = 0;
    while r < n
        invariant
            screen.wf(),
            all == screen@.grid.rows,
            n == all.len(),
            m == screen@.grid.ncols,
            r <= n,
            tag_from(all, mark, 0) == tag_from(all, mark, r as int),
        decreases n - r,
    {
        let ghost cells = all[r as int].cells;
        assert(cells.len() == m);
        let mut c: u16 = 0;
        while c < m
            invariant
                screen.wf(),
                all == screen@.grid.rows,
                n == all.len(),
                m == screen@.grid.ncols,
                r < n,
                c <= m,
                m == cells.len(),
                cells == all[r as int].cells,
                tag_from(all, mark, 0) == tag_from(all, mark, r as int),
                tag_in_row(cells, mark, 0) == tag_in_row(cells, mark, c as int),
            decreases m - c,
        {
            if let Some(cell) = screen.cell(r, c) {
                if let Some(t) = cell.data() {
                    if t.mark == mark {
                        return Some((r as i32 - t.row as i32, c as i32 - t.col as i32));
                    }
                }
            }
            c += 1;
        }
        r += 1;
    }
    None
}

fn put_image(p: &Placed, r: i32, c: i32) -> (img: ImagePlacement)
    requires
        -0x10000 <= r <= 0x10000,
        c <= 0x10000,
    ensures
        (PlacedView { mark: p.mark, img: img@ }) == moved(
            PlacedView { mark: p.mark, img: p.img@ },
            (r as int, c as int),
        ),
{
    let col: u16 = if c < 0 {
        0
    } else {
        (c % 65536) as u16
    };
    ImagePlacement {
        row: placed_row(r),
        col,
        cols: p.img.cols,
        rows: p.img.rows,
        mime: p.img.mime.clone(),
        data: p.img.data.clone(),
    }
}

fn scrub(grid: &mut Grid, r: usize, c: usize)
    requires
        r < old(grid).rows@.len(),
        c < old(grid).rows@[r as int]@.len(),
    ensures
        final(grid)@ == (GridView {
            rows: scrubbed(old(grid)@.rows, (r as int, c as int)),
            ..old(grid)@
        }),
{
    let ghost rows = grid@.rows;
    assert(rows[r as int] == row_view(grid.rows@[r as int]@));
    let mut row = crate::model::clone_row(&grid.rows[r]);
    let blank = StyledCell::default();
    let ghost was = row_view(row@);
    row.set(c, blank);
    assert(row_view(row@) =~= was.update(c as int, blank_cell()));
    grid.rows.set(r, row);
    assert(rows_view(grid.rows@) =~= scrubbed(rows, (r as int, c as int)));
}

/// Find each image, take its mark off the rows that are shown, and drop the images of which
/// nothing is left. The images that are left are shown.
pub fn resolve_images(screen: &Screen, grid: &mut Grid, images: &mut Vec<Placed>)
    requires
        screen.wf(),
    ensures
        ({
            let f = found(screen@.grid.rows, old(grid)@.rows, placed_views(old(images)@));
            &&& final(grid)@ == (GridView { rows: f.0, images: placements(f.1), ..old(grid)@ })
            &&& placed_views(final(images)@) == f.1
        }),
{
    let ghost start = grid@.rows;
    let ghost under = screen@.grid.rows;
    let ghost all = placed_views(images@);
    let mut kept: Vec<Placed> = Vec::new();
    let mut out: Vec<ImagePlacement> = Vec::new();
    let mut rest: Vec<Placed> = Vec::new();
    core::mem::swap(&mut rest, images);
    let n: usize = rest.len();
    let mut i: usize = 0;
    assert(all.take(0) =~= Seq::<PlacedView>::empty());
    assert(placed_views(kept@) =~= Seq::<PlacedView>::empty());
    assert(images_view(out@) =~= placements(placed_views(kept@)));
    while i < n
        invariant
            screen.wf(),
            under == screen@.grid.rows,
            i <= n,
            n == rest@.len(),
            n == all.len(),
            forall|j: int|
                0 <= j < n ==> #[trigger] all[j] == (PlacedView {
                    mark: rest@[j].mark,
                    img: rest@[j].img@,
                }),
            grid@.rows == found(under, start, all.take(i as int)).0,
            placed_views(kept@) == found(under, start, all.take(i as int)).1,
            images_view(out@) == placements(placed_views(kept@)),
            grid@.cols == old(grid)@.cols,
            grid@.cursor == old(grid)@.cursor,
            grid@.cursor_style == old(grid)@.cursor_style,
            start == old(grid)@.rows,
        decreases n - i,
    {
        let ghost rows = grid@.rows;
        proof {
            assert(all.take(i + 1).drop_last() =~= all.take(i as int));
            assert(all.take(i + 1).last() == all[i as int]);
            lemma_found_shape(under, start, all.take(i as int));
        }
        let p = &rest[i];
        let mark_at = find_mark(&grid.rows, p.mark);
        if let Some((r, c)) = mark_at {
            assert(rows[r as int].len() == start[r as int].len());
            assert(rows[r as int] == row_view(grid.rows@[r as int]@));
            scrub(grid, r, c);
        }
        let at: Option<(i32, i32)> = match find_tag(screen, p.mark) {
            Some(at) => Some(at),
            None => match mark_at {
                Some((r, c)) => Some(((r % 65536) as i32, (c % 65536) as i32)),
                None => None,
            },
        };
        let ghost where_it_is = spot(
            under,
            match mark_at {
                Some((r, c)) => Some((r as int, c as int)),
                None => None,
            },
            p.mark,
        );
        if let Some((r, c)) = at {
            let img = put_image(p, r, c);
            let ghost v = moved(all[i as int], where_it_is->0);
            assert(img@ == v.img);
            let copy = img.clone();
            let ghost ks = placed_views(kept@);
            proof {
                lemma_images_push(out@, copy);
            }
            out.push(copy);
            kept.push(Placed { mark: p.mark, img });
            assert(placed_views(kept@) =~= ks.push(v));
            assert(images_view(out@) =~= placements(placed_views(kept@)));
        }
        i += 1;
    }
    assert(all.take(i as int) =~= all);
    grid.images = out;
    *images = kept;
    proof {
        let f = found(under, start, all);
        let want = GridView { rows: f.0, images: placements(f.1), ..old(grid)@ };
        assert(grid@ =~= want);
    }
}

/// What a screen shows, with the images of which something is left on it.
pub open spec fn framed(s: ScreenState, images: Seq<PlacedView>) -> (GridView, Seq<PlacedView>) {
    let g = shown_grid(s);
    let (rows, kept) = found(s.grid.rows, g.rows, images);
    (GridView { rows, images: placements(kept), ..g }, kept)
}

/// What a screen shows, with the images of which something is left on it; the others are
/// dropped.
pub fn frame_from(screen: &Screen, images: &mut Vec<Placed>) -> (r: Frame)
    requires
        screen.wf(),
    ensures
        r@ == FrameView::Screen(framed(screen@, placed_views(old(images)@)).0),
        placed_views(final(images)@) == framed(screen@, placed_views(old(images)@)).1,
{
    let mut grid = grid_from_screen(screen);
    resolve_images(screen, &mut grid, images);
    Frame::Screen(grid)
}

// ---- notices of a hub ----

/// Switches off every way of input that an application may have asked for.
pub const INPUT_MODES_OFF: &'static str = "\x1b>\x1b[?1l\x1b[?2004l\x1b[?1000l\x1b[?1001l\x1b[?1002l\x1b[?1003l\x1b[?1005l\x1b[?1006l";

/// Whether the terminal shows the session, or a notice that the hub is gone.
pub struct Notifier {
    connected: bool,
}

/// What the terminal is sent for a notice.
pub open spec fn notice(msg: Seq<char>) -> Seq<char> {
    "\x1b[0m\x1b[?25h\x1b[2J\x1b[H"@ + INPUT_MODES_OFF@ + "\x1b[33mshellglass: "@ + msg + "\x1b[0m\r\n"@
}

impl Notifier {
    /// Whether the terminal shows the session.
    pub closed spec fn shows_session(&self) -> bool {
        self.connected
    }

    /// The terminal shows the session.
    pub fn new() -> (r: Self)
        ensures
            r.shows_session(),
    {
        Notifier { connected: true }
    }

    /// Whether what the command writes goes to the terminal.
    pub fn is_connected(&self) -> (r: bool)
        ensures
            r == self.shows_session(),
    {
        self.connected
    }

    /// The hub is gone: what the terminal is sent, in its ordinary mode. Nothing where it shows
    /// a notice already.
    pub fn hub_down(&mut self, msg: &str) -> (r: Option<String>)
        ensures
            !final(self).shows_session(),
            r is Some <==> old(self).shows_session(),
            r matches Some(t) ==> t@ == notice(msg@),
    {
        if !self.connected {
            return None;
        }
        self.connected = false;
        let mut t = String::from_str("\x1b[0m\x1b[?25h\x1b[2J\x1b[H");
        t.append(INPUT_MODES_OFF);
        t.append("\x1b[33mshellglass: ");
        t.append(msg);
        t.append("\x1b[0m\r\n");
        Some(t)
    }

    /// The hub is back: whether the screen is to be painted again.
    pub fn hub_up(&mut self) -> (r: bool)
        ensures
            final(self).shows_session(),
            r == !old(self).shows_session(),
    {
        let was = self.connected;
        self.connected = true;
        !was
    }
}

} // verus!
