//! From a terminal's screen to styled cells.
use crate::model::{
    lemma_row_push, lemma_rows_push, row_view, rows_view, CellStyle, CellView, Color, Grid,
    GridView, StyledCell,
};
use crate::text::{chars_of, dec, push_dec};
use crate::vt::attrs as vt_attrs;
use crate::vt::cell::{Cell, Tag};
use crate::vt::grid::most;
use crate::vt::parser::{all_played, vte_events, OutputParser};
use crate::vt::row::{is_half, whole, Glyph};
use crate::vt::screen::{fresh_screen, Screen, ScreenState};
use crate::vt::wrapped::WrappedScreen;
use vstd::prelude::*;
use vstd::string::*;
use vstd::utf8::encode_utf8;

verus! {

/// A colour of the screen as one of a cell.
pub open spec fn converted(c: vt_attrs::Color) -> Color {
    match c {
        vt_attrs::Color::Default => Color::Default,
        vt_attrs::Color::Idx(i) => Color::Idx(i),
        vt_attrs::Color::Rgb(r, g, b) => Color::Rgb(r, g, b),
    }
}

/// A cell of the screen as a styled one; a blank shows a space.
pub open spec fn styled_cell(c: Glyph) -> CellView {
    CellView {
        text: if c.text.len() == 0 {
            " "@
        } else {
            c.text
        },
        style: CellStyle {
            fg: converted(c.attrs.fgcolor),
            bg: converted(c.attrs.bgcolor),
            bold: c.attrs.is_bold(),
            dim: c.attrs.is_dim(),
            italic: c.attrs.mode & vt_attrs::TEXT_MODE_ITALIC != 0,
            underline: c.attrs.underlined(),
            strike: c.attrs.mode & vt_attrs::TEXT_MODE_STRIKETHROUGH != 0,
            ulcolor: converted(c.attrs.ulcolor),
            inverse: c.attrs.mode & vt_attrs::TEXT_MODE_INVERSE != 0,
            wide: c.wide,
        },
    }
}

/// The cells of a row from column `c` on; the second column of a wide cell is part of it.
pub open spec fn styled_row(cells: Seq<Glyph>, c: int) -> Seq<CellView>
    decreases cells.len() - c,
{
    if !(0 <= c < cells.len()) {
        Seq::empty()
    } else if cells[c].continuation {
        styled_row(cells, c + 1)
    } else {
        seq![styled_cell(cells[c])] + styled_row(cells, c + 1)
    }
}

/// What a screen shows.
pub open spec fn shown_grid(s: ScreenState) -> GridView {
    GridView {
        cols: s.grid.ncols as u16,
        rows: Seq::new(s.grid.rows.len(), |i: int| styled_row(s.grid.rows[i].cells, 0)),
        cursor: if s.modes.hide_cursor {
            None
        } else {
            Some((s.grid.row as u16, s.grid.col as u16))
        },
        cursor_style: s.modes.cursor_style,
        images: Seq::empty(),
    }
}

fn conv_color(c: vt_attrs::Color) -> (r: Color)
    ensures
        r == converted(c),
{
    match c {
        vt_attrs::Color::Default => Color::Default,
        vt_attrs::Color::Idx(i) => Color::Idx(i),
        vt_attrs::Color::Rgb(r, g, b) => Color::Rgb(r, g, b),
    }
}

fn style_cell(c: &Cell<Tag>) -> (r: StyledCell)
    ensures
        r@ == styled_cell(c@),
{
    let mut text = String::new();
    if c.has_contents() {
        text.append(c.contents());
    } else {
        text.append(" ");
    }
    assert(text@ =~= styled_cell(c@).text);
    StyledCell {
        text,
        fg: conv_color(c.fgcolor()),
        bg: conv_color(c.bgcolor()),
        bold: c.bold(),
        dim: c.dim(),
        italic: c.italic(),
        underline: c.underline_style(),
        strike: c.strikethrough(),
        ulcolor: conv_color(c.ulcolor()),
        inverse: c.inverse(),
        wide: c.is_wide(),
    }
}

fn style_row(screen: &Screen, row: u16) -> (r: Vec<StyledCell>)
    requires
        screen.wf(),
        row < screen@.grid.rows.len(),
    ensures
        row_view(r@) == styled_row(screen@.grid.rows[row as int].cells, 0),
{
    let ghost cells = screen@.grid.rows[row as int].cells;
    assert(cells.len() == screen@.grid.ncols);
    let (_, n) = screen.size();
    let mut out: Vec<StyledCell> = Vec::new();
    let mut c: u16 = 0;
    assert(row_view(out@) + styled_row(cells, 0) =~= styled_row(cells, 0));
    while c < n
        invariant
            c <= n,
            n == cells.len(),
            n == screen@.grid.ncols,
            screen.wf(),
            row < screen@.grid.rows.len(),
            cells == screen@.grid.rows[row as int].cells,
            row_view(out@) + styled_row(cells, c as int) == styled_row(cells, 0),
        decreases n - c,
    {
        if let Some(cell) = screen.cell(row, c) {
            if !cell.is_wide_continuation() {
                let x = style_cell(cell);
                let ghost before = row_view(out@);
                proof {
                    lemma_row_push(out@, x);
                }
                out.push(x);
                assert(row_view(out@) + styled_row(cells, c + 1) =~= before + styled_row(
                    cells,
                    c as int,
                ));
            }
        }
        c += 1;
    }
    assert(row_view(out@) + styled_row(cells, c as int) =~= row_view(out@));
    out
}

/// What a screen shows, as styled cells without images.
pub fn grid_from_screen(screen: &Screen) -> (r: Grid)
    requires
        screen.wf(),
    ensures
        r@ == shown_grid(screen@),
{
    let (n, cols) = screen.size();
    let ghost want = shown_grid(screen@);
    let mut rows: Vec<Vec<StyledCell>> = Vec::new();
    let mut i: u16 = 0;
    assert(rows_view(rows@) =~= want.rows.take(0));
    while i < n
        invariant
            i <= n,
            n == screen@.grid.rows.len(),
            screen.wf(),
            want == shown_grid(screen@),
            rows_view(rows@) == want.rows.take(i as int),
        decreases n - i,
    {
        let row = style_row(screen, i);
        proof {
            lemma_rows_push(rows@, row);
        }
        rows.push(row);
        i += 1;
        assert(rows_view(rows@) =~= want.rows.take(i as int));
    }
    assert(want.rows.take(i as int) =~= want.rows);
    let cursor = if screen.hide_cursor() {
        None
    } else {
        Some(screen.cursor_position())
    };
    let g = Grid {
        cols,
        rows,
        cursor,
        cursor_style: screen.cursor_style(),
        images: Vec::new(),
    };
    assert(g@ =~= want);
    g
}

// ---- captured text ----

/// Text without the line breaks at its end.
pub open spec fn unbroken_end(s: Seq<char>) -> Seq<char>
    decreases s.len(),
{
    if s.len() > 0 && s.last() == '\n' {
        unbroken_end(s.drop_last())
    } else {
        s
    }
}

/// Text with a carriage return before each line break.
pub open spec fn returned(s: Seq<char>) -> Seq<char>
    decreases s.len(),
{
    if s.len() == 0 {
        Seq::empty()
    } else if s.last() == '\n' {
        returned(s.drop_last()) + seq!['\r', '\n']
    } else {
        returned(s.drop_last()).push(s.last())
    }
}

/// The bytes that print captured lines: each begins in the first column, and no line break
/// behind the last one scrolls the first one away.
pub open spec fn captured_bytes(capture: Seq<char>) -> Seq<u8> {
    encode_utf8(returned(unbroken_end(capture)))
}

/// The bytes that put the cursor in a column and a row, both counted from zero.
pub open spec fn cursor_bytes(cursor: (u16, u16)) -> Seq<u8> {
    encode_utf8("\x1b["@ + dec(cursor.1 as nat + 1) + ";"@ + dec(cursor.0 as nat + 1) + "H"@)
}

fn printable_lines(capture: &str) -> (r: String)
    ensures
        r@ == returned(unbroken_end(capture@)),
{
    let cs = chars_of(capture);
    let mut n: usize = cs.len();
    assert(cs@.take(n as int) =~= capture@);
    while n > 0 && cs[n - 1] == '\n'
        invariant
            n <= cs@.len(),
            unbroken_end(cs@.take(n as int)) == unbroken_end(capture@),
        decreases n,
    {
        assert(cs@.take(n as int).drop_last() =~= cs@.take(n - 1));
        n -= 1;
    }
    let ghost kept = cs@.take(n as int);
    assert(n > 0 ==> kept.last() == cs@[n - 1]);
    assert(kept == unbroken_end(capture@));
    let mut out = String::new();
    let mut i: usize = 0;
    assert(out@ =~= returned(kept.take(0)));
    while i < n
        invariant
            i <= n <= cs@.len(),
            kept == cs@.take(n as int),
            out@ == returned(kept.take(i as int)),
        decreases n - i,
    {
        assert(kept.take(i + 1).drop_last() =~= kept.take(i as int));
        if cs[i] == '\n' {
            out.push('\r');
        }
        out.push(cs[i]);
        i += 1;
        assert(out@ =~= returned(kept.take(i as int)));
    }
    assert(kept.take(n as int) =~= kept);
    out
}

/// A screen on which captured lines stand, with the cursor in its column and row, and the
/// parser for what comes then.
pub fn seed_parser(capture: &str, cols: u16, rows: u16, cursor: (u16, u16)) -> (r: (
    OutputParser,
    WrappedScreen,
))
    ensures
        r.1.wf(),
        r.0.reads() == seq![captured_bytes(capture@), cursor_bytes(cursor)],
        r.1.screen@ == all_played(
            all_played(
                fresh_screen(most(rows as int, 1), most(cols as int, 1)),
                vte_events(Seq::empty(), captured_bytes(capture@)),
                0,
            ),
            vte_events(seq![captured_bytes(capture@)], cursor_bytes(cursor)),
            0,
        ),
{
    let mut screen = WrappedScreen::new(rows, cols);
    let mut parser = OutputParser::new();
    let text = printable_lines(capture);
    parser.process(&mut screen, text.as_str().as_bytes());
    assert(parser.reads() =~= seq![captured_bytes(capture@)]);
    let mut to = String::from_str("\x1b[");
    push_dec(&mut to, cursor.1 as u64 + 1);
    to.append(";");
    push_dec(&mut to, cursor.0 as u64 + 1);
    to.append("H");
    parser.process(&mut screen, to.as_str().as_bytes());
    assert(parser.reads() =~= seq![captured_bytes(capture@), cursor_bytes(cursor)]);
    (parser, screen)
}

/// The grid of a screen on which captured lines stand.
pub fn grid_from_capture(capture: &str, cols: u16, rows: u16) -> (r: Grid)
    ensures
        r@ == shown_grid(
            all_played(
                fresh_screen(most(rows as int, 1), most(cols as int, 1)),
                vte_events(Seq::empty(), captured_bytes(capture@)),
                0,
            ),
        ),
{
    let mut screen = WrappedScreen::new(rows, cols);
    let mut parser = OutputParser::new();
    let text = printable_lines(capture);
    parser.process(&mut screen, text.as_str().as_bytes());
    grid_from_screen(&screen.screen)
}

/// The columns that cells cover.
pub open spec fn covered(row: Seq<CellView>) -> int
    decreases row.len(),
{
    if row.len() == 0 {
        0
    } else {
        (if row[0].style.wide {
            2int
        } else {
            1int
        }) + covered(row.skip(1))
    }
}

proof fn lemma_covered(cells: Seq<Glyph>, c: int)
    requires
        whole(cells),
        0 <= c <= cells.len(),
        c < cells.len() ==> !cells[c].continuation,
    ensures
        covered(styled_row(cells, c)) == cells.len() - c,
    decreases cells.len() - c,
{
    if c < cells.len() {
        let rest = styled_row(cells, c + 1);
        assert(styled_row(cells, c).skip(1) =~= rest);
        assert(!is_half(cells, c));
        if cells[c].wide {
            assert(cells[c + 1].continuation);
            assert(rest == styled_row(cells, c + 2));
            if c + 2 < cells.len() {
                assert(!is_half(cells, c + 2));
                assert(!is_half(cells, c + 1));
            }
            lemma_covered(cells, c + 2);
        } else {
            if c + 1 < cells.len() {
                assert(!is_half(cells, c + 1));
            }
            lemma_covered(cells, c + 1);
        }
    }
}

/// The cells of every row cover the width of the screen.
pub proof fn law_rows_cover_the_width(s: ScreenState)
    requires
        s.ok(),
    ensures
        shown_grid(s).rows.len() == s.grid.rows.len(),
        forall|i: int|
            0 <= i < s.grid.rows.len() ==> covered(#[trigger] shown_grid(s).rows[i]) == s.grid.ncols,
{
    assert forall|i: int| 0 <= i < s.grid.rows.len() implies covered(
        #[trigger] shown_grid(s).rows[i],
    ) == s.grid.ncols by {
        let cells = s.grid.rows[i].cells;
        assert(cells.len() == s.grid.ncols && whole(cells));
        assert(!is_half(cells, 0));
        lemma_covered(cells, 0);
    }
}

} // verus!
