//! The text of a screen, and the text that paints it on another terminal.
use crate::text::{
    chars_of, dec, dec_text, push_bytes, string_of, strip_trailing, without_trailing,
};
use crate::vt::attrs::{escape_diff, no_attrs, Attrs};
use crate::vt::cell::{empty_cell, Cell, Tag};
use crate::vt::grid::{least, GridState};
use crate::vt::row::{is_half, whole, Glyph, Row, RowState};
use crate::vt::screen::{
    MouseProtocolEncoding, MouseProtocolMode, Screen, ScreenState,
};
use vstd::prelude::*;
use vstd::string::*;
use vstd::utf8::encode_utf8;

verus! {

/// One past the last cell with text among the first `n`.
pub open spec fn shown_end(cells: Seq<Glyph>, n: int) -> int
    decreases n,
{
    if n <= 0 {
        0
    } else if cells[n - 1].text.len() > 0 {
        n
    } else {
        shown_end(cells, n - 1)
    }
}

/// What a cell shows: a space where it has no text, and nothing where it is the second column
/// of a wide one.
pub open spec fn cell_text(c: Glyph) -> Seq<char> {
    if c.continuation {
        Seq::empty()
    } else if c.text.len() == 0 {
        " "@
    } else {
        c.text
    }
}

/// What the cells from `a` to `b` show.
pub open spec fn span_text(cells: Seq<Glyph>, a: int, b: int) -> Seq<char>
    decreases b - a,
{
    if a >= b {
        Seq::empty()
    } else {
        cell_text(cells[a]) + span_text(cells, a + 1, b)
    }
}

/// What `width` columns of a row show from `start` on, without the empty cells at the end.
pub open spec fn row_text(r: RowState, start: int, width: int) -> Seq<char> {
    span_text(r.cells, start, shown_end(r.cells, least(start + width, r.cells.len() as int)))
}

/// What the rows from `i` on show; a row that goes on in the next has no end of line.
pub open spec fn rows_text(rows: Seq<RowState>, i: int) -> Seq<char>
    decreases rows.len() - i,
{
    if !(0 <= i < rows.len()) {
        Seq::empty()
    } else {
        row_text(rows[i], 0, rows[i].cells.len() as int) + (if rows[i].wrapped {
            Seq::empty()
        } else {
            "\n"@
        }) + rows_text(rows, i + 1)
    }
}

/// Where the cursor of the other terminal is, and its attributes.
#[derive(Clone, Copy, PartialEq, Eq, Structural)]
pub struct Pen {
    pub row: u16,
    pub col: u16,
    pub attrs: Attrs,
}

/// What was written so far, and where that leaves the other terminal.
pub ghost struct Painted {
    pub out: Seq<char>,
    pub pen: Pen,
}

/// Whether two cells look alike.
pub open spec fn alike(a: Glyph, b: Glyph) -> bool {
    a.text == b.text && a.wide == b.wide && a.continuation == b.continuation && a.attrs == b.attrs
}

impl Painted {
    /// Something written.
    pub open spec fn wrote(self, s: Seq<char>) -> Painted {
        Painted { out: self.out + s, ..self }
    }

    /// The cursor in a place.
    pub open spec fn moved(self, r: u16, c: u16) -> Painted {
        if self.pen.row == r && self.pen.col == c {
            self
        } else {
            Painted {
                out: self.out + ("\x1b["@ + dec((r + 1) as nat) + ";"@ + dec((c + 1) as nat) + "H"@),
                pen: Pen { row: r, col: c, ..self.pen },
            }
        }
    }

    /// The attributes set.
    pub open spec fn inked(self, a: Attrs) -> Painted {
        Painted {
            out: self.out + escape_diff(a, self.pen.attrs),
            pen: Pen { attrs: a, ..self.pen },
        }
    }

    /// A cell drawn in its place; one without text is erased.
    pub open spec fn drew(self, r: u16, c: u16, cell: Glyph) -> Painted {
        let p = self.moved(r, c).inked(cell.attrs);
        if cell.text.len() > 0 {
            Painted {
                out: p.out + cell.text,
                pen: Pen {
                    col: (c + if cell.wide {
                        2int
                    } else {
                        1int
                    }) as u16,
                    ..p.pen
                },
            }
        } else {
            p.wrote("\x1b[X"@)
        }
    }

    /// The cells of a row from `c` on drawn where they differ from what was there.
    pub open spec fn drew_row(
        self,
        r: int,
        now: Seq<Glyph>,
        was: Option<Seq<Glyph>>,
        c: int,
    ) -> Painted
        decreases now.len() - c,
    {
        if !(0 <= c < now.len()) {
            self
        } else if now[c].continuation || unchanged(now[c], was, c) {
            self.drew_row(r, now, was, c + 1)
        } else {
            self.drew(r as u16, c as u16, now[c]).drew_row(r, now, was, c + 1)
        }
    }

    /// The rows from `r` on drawn where they differ from what was there.
    pub open spec fn drew_rows(
        self,
        now: Seq<RowState>,
        was: Option<Seq<RowState>>,
        r: int,
    ) -> Painted
        decreases now.len() - r,
    {
        if !(0 <= r < now.len()) {
            self
        } else {
            self.drew_row(r, now[r].cells, cells_before(was, r), 0).drew_rows(now, was, r + 1)
        }
    }

    /// The cursor where the grid has it. Behind the last cell of a row it comes by drawing
    /// that cell.
    pub open spec fn settled(self, g: GridState) -> Painted {
        if self.pen.row == g.row && self.pen.col == g.col {
            self
        } else if g.col < g.ncols {
            self.moved(g.row as u16, g.col as u16)
        } else {
            let cells = g.rows[g.row].cells;
            let k = if g.ncols >= 2 && cells[g.ncols - 1].continuation {
                g.ncols - 2
            } else {
                g.ncols - 1
            };
            if cells[k].text.len() > 0 {
                self.drew(g.row as u16, k as u16, cells[k])
            } else {
                self.moved(g.row as u16, (g.ncols - 1) as u16)
            }
        }
    }

    /// A screen drawn over what was there.
    pub open spec fn drew_screen(self, s: ScreenState, was: Option<Seq<RowState>>) -> Painted {
        self.drew_rows(s.grid.rows, was, 0).settled(s.grid).inked(s.modes.attrs)
    }
}

/// Whether a cell looks as it did; where nothing is known of it, whether it is empty.
pub open spec fn unchanged(now: Glyph, was: Option<Seq<Glyph>>, c: int) -> bool {
    match was {
        Some(w) => c < w.len() && alike(now, w[c]),
        None => alike(now, empty_cell()),
    }
}

/// The cells that were in a row, where there was one.
pub open spec fn cells_before(was: Option<Seq<RowState>>, r: int) -> Option<Seq<Glyph>> {
    match was {
        Some(rows) => Some(
            if r < rows.len() {
                rows[r].cells
            } else {
                Seq::empty()
            },
        ),
        None => None,
    }
}

/// What hides or shows the cursor.
pub open spec fn cursor_code(hide: bool) -> Seq<char> {
    if hide {
        "\x1b[?25l"@
    } else {
        "\x1b[?25h"@
    }
}

/// What paints a screen on a terminal in any state.
pub open spec fn whole_paint(s: ScreenState) -> Seq<char> {
    Painted {
        out: cursor_code(s.modes.hide_cursor) + "\x1b[m\x1b[H\x1b[J"@,
        pen: Pen { row: 0, col: 0, attrs: no_attrs() },
    }.drew_screen(s, None).out
}

/// What takes a terminal that shows `was` to `now`.
pub open spec fn paint_over(now: ScreenState, was: ScreenState) -> Seq<char> {
    Painted {
        out: if now.modes.hide_cursor != was.modes.hide_cursor {
            cursor_code(now.modes.hide_cursor)
        } else {
            Seq::empty()
        },
        pen: Pen { row: was.grid.row as u16, col: was.grid.col as u16, attrs: was.modes.attrs },
    }.drew_screen(now, Some(was.grid.rows)).out
}

/// What sets the keypad, the cursor keys, bracketed paste and the mouse as on the screen.
pub open spec fn input_modes(s: ScreenState) -> Seq<char> {
    let m = s.modes;
    (if m.application_keypad {
        "\x1b="@
    } else {
        "\x1b>"@
    }) + (if m.application_cursor {
        "\x1b[?1h"@
    } else {
        "\x1b[?1l"@
    }) + (if m.bracketed_paste {
        "\x1b[?2004h"@
    } else {
        "\x1b[?2004l"@
    }) + (match m.mouse {
        MouseProtocolMode::Off => Seq::empty(),
        MouseProtocolMode::Press => "\x1b[?9h"@,
        MouseProtocolMode::PressRelease => "\x1b[?1000h"@,
        MouseProtocolMode::ButtonMotion => "\x1b[?1002h"@,
        MouseProtocolMode::AnyMotion => "\x1b[?1003h"@,
    }) + (match m.encoding {
        MouseProtocolEncoding::Default => Seq::empty(),
        MouseProtocolEncoding::Utf8 => "\x1b[?1005h"@,
        MouseProtocolEncoding::Sgr => "\x1b[?1006h"@,
    })
}

fn find_end(row: &Row, n: u16) -> (r: u16)
    requires
        n <= row@.cells.len(),
    ensures
        r == shown_end(row@.cells, n as int),
        r <= n,
{
    let mut k: u16 = n;
    while k > 0 && !filled(row, k - 1)
        invariant
            k <= n <= row@.cells.len(),
            shown_end(row@.cells, k as int) == shown_end(row@.cells, n as int),
        decreases k,
    {
        k -= 1;
    }
    k
}

fn filled(row: &Row, c: u16) -> (r: bool)
    ensures
        r == (c < row@.cells.len() && row@.cells[c as int].text.len() > 0),
{
    match row.cell(c) {
        Some(x) => x.has_contents(),
        None => false,
    }
}

fn push_row(out: &mut String, row: &Row, start: u16, width: u16)
    requires
        row@.cells.len() <= 0xffff,
    ensures
        final(out)@ == old(out)@ + row_text(row@, start as int, width as int),
{
    let ghost cells = row@.cells;
    let n: u16 = row.len();
    let to: u32 = start as u32 + width as u32;
    let e: u16 = find_end(
        row,
        if to < n as u32 {
            to as u16
        } else {
            n
        },
    );
    let mut i: u16 = start;
    let ghost want = old(out)@ + span_text(cells, start as int, e as int);
    while i < e
        invariant
            start <= i,
            e <= cells.len(),
            cells == row@.cells,
            out@ + span_text(cells, i as int, e as int) == want,
        decreases e - i,
    {
        let ghost before = out@;
        if let Some(c) = row.cell(i) {
            if !c.is_wide_continuation() {
                if c.has_contents() {
                    out.append(c.contents());
                } else {
                    out.append(" ");
                }
            }
        }
        assert(out@ =~= before + cell_text(cells[i as int]));
        assert(out@ + span_text(cells, i + 1, e as int) =~= before + span_text(
            cells,
            i as int,
            e as int,
        ));
        i += 1;
    }
    assert(out@ + span_text(cells, i as int, e as int) =~= out@);
}

fn move_pen(p: &mut Pen, out: &mut String, row: u16, col: u16)
    requires
        row < 0xffff,
        col < 0xffff,
    ensures
        (Painted { out: final(out)@, pen: *final(p) }) == (Painted {
            out: old(out)@,
            pen: *old(p),
        }).moved(row, col),
{
    if p.row != row || p.col != col {
        let mut t = String::from_str("\x1b[");
        t.append(dec_text(row as u64 + 1).as_str());
        t.append(";");
        t.append(dec_text(col as u64 + 1).as_str());
        t.append("H");
        out.append(t.as_str());
        p.row = row;
        p.col = col;
    }
}

fn ink(p: &mut Pen, out: &mut String, a: Attrs)
    ensures
        (Painted { out: final(out)@, pen: *final(p) }) == (Painted {
            out: old(out)@,
            pen: *old(p),
        }).inked(a),
{
    let t = a.escape_code_diff(&p.attrs);
    out.append(t.as_str());
    p.attrs = a;
}

fn draw(p: &mut Pen, out: &mut String, row: u16, col: u16, cell: &Cell<Tag>)
    requires
        row < 0xffff,
        col < 0xffff,
        cell@.wide ==> col < 0xfffe,
    ensures
        (Painted { out: final(out)@, pen: *final(p) }) == (Painted {
            out: old(out)@,
            pen: *old(p),
        }).drew(row, col, cell@),
{
    move_pen(p, out, row, col);
    ink(p, out, *cell.attrs());
    if cell.has_contents() {
        out.append(cell.contents());
        if cell.is_wide() {
            p.col = col + 2;
        } else {
            p.col = col + 1;
        }
    } else {
        out.append("\x1b[X");
    }
}

/// The rows of a screen, where there is one.
pub open spec fn rows_before(was: Option<&Screen>) -> Option<Seq<RowState>> {
    match was {
        Some(s) => Some(s@.grid.rows),
        None => None,
    }
}

fn is_unchanged(now: &Cell<Tag>, was: Option<&Screen>, row: u16, col: u16) -> (r: bool)
    requires
        was matches Some(w) ==> w.wf(),
    ensures
        r == unchanged(now@, cells_before(rows_before(was), row as int), col as int),
{
    match was {
        Some(s) => {
            assert(row < s@.grid.rows.len() ==> s@.grid.rows[row as int].cells.len()
                == s@.grid.ncols);
            match s.cell(row, col) {
                Some(c) => now.same(c),
                None => false,
            }
        },
        None => {
            assert(now@.text.len() == 0 ==> now@.text =~= Seq::<char>::empty());
            !now.has_contents() && !now.is_wide() && !now.is_wide_continuation() && *now.attrs()
                == Attrs::default()
        },
    }
}

impl Screen {
    fn draw_row(&self, p: &mut Pen, out: &mut String, was: Option<&Screen>, row: u16)
        requires
            self.wf(),
            was matches Some(w) ==> w.wf(),
            row < self@.grid.rows.len(),
        ensures
            (Painted { out: final(out)@, pen: *final(p) }) == (Painted {
                out: old(out)@,
                pen: *old(p),
            }).drew_row(
                row as int,
                self@.grid.rows[row as int].cells,
                cells_before(rows_before(was), row as int),
                0,
            ),
    {
        let ghost now = self@.grid.rows[row as int].cells;
        let ghost before = cells_before(rows_before(was), row as int);
        let ghost want = (Painted { out: out@, pen: *p }).drew_row(row as int, now, before, 0);
        let (_, n) = self.size();
        let mut c: u16 = 0;
        assert(now.len() == n && whole(now)) by {
            assert(self@.grid.rows[row as int].cells.len() == self@.grid.ncols);
        }
        while c < n
            invariant
                c <= n,
                n == self@.grid.ncols,
                self.wf(),
                was matches Some(w) ==> w.wf(),
                row < self@.grid.rows.len(),
                now == self@.grid.rows[row as int].cells,
                now.len() == n,
                whole(now),
                before == cells_before(rows_before(was), row as int),
                (Painted { out: out@, pen: *p }).drew_row(row as int, now, before, c as int) == want,
            decreases n - c,
        {
            if let Some(cell) = self.cell(row, c) {
                assert(cell@ == now[c as int]);
                if !cell.is_wide_continuation() && !is_unchanged(cell, was, row, c) {
                    assert(!is_half(now, c as int));
                    draw(p, out, row, c, cell);
                }
            }
            c += 1;
        }
    }

    fn draw_rows(&self, p: &mut Pen, out: &mut String, was: Option<&Screen>)
        requires
            self.wf(),
            was matches Some(w) ==> w.wf(),
        ensures
            (Painted { out: final(out)@, pen: *final(p) }) == (Painted {
                out: old(out)@,
                pen: *old(p),
            }).drew_rows(self@.grid.rows, rows_before(was), 0),
    {
        let ghost rows = self@.grid.rows;
        let ghost want = (Painted { out: out@, pen: *p }).drew_rows(rows, rows_before(was), 0);
        let (n, _) = self.size();
        let mut r: u16 = 0;
        while r < n
            invariant
                r <= n,
                n == rows.len(),
                rows == self@.grid.rows,
                self.wf(),
                was matches Some(w) ==> w.wf(),
                (Painted { out: out@, pen: *p }).drew_rows(rows, rows_before(was), r as int) == want,
            decreases n - r,
        {
            self.draw_row(p, out, was, r);
            r += 1;
        }
    }

    fn settle(&self, p: &mut Pen, out: &mut String)
        requires
            self.wf(),
        ensures
            (Painted { out: final(out)@, pen: *final(p) }) == (Painted {
                out: old(out)@,
                pen: *old(p),
            }).settled(self@.grid),
    {
        let (_, n) = self.size();
        let (row, col) = self.cursor_position();
        let ghost cells = self@.grid.rows[row as int].cells;
        assert(cells.len() == n && whole(cells));
        if p.row == row && p.col == col {
            return;
        }
        if col < n {
            move_pen(p, out, row, col);
            return;
        }
        let split = match self.cell(row, n - 1) {
            Some(c) => n >= 2 && c.is_wide_continuation(),
            None => false,
        };
        let k: u16 = if split {
            n - 2
        } else {
            n - 1
        };
        if let Some(c) = self.cell(row, k) {
            if c.has_contents() {
                assert(!is_half(cells, k as int));
                draw(p, out, row, k, c);
            } else {
                move_pen(p, out, row, n - 1);
            }
        }
    }

    fn draw_screen(&self, p: &mut Pen, out: &mut String, was: Option<&Screen>)
        requires
            self.wf(),
            was matches Some(w) ==> w.wf(),
        ensures
            (Painted { out: final(out)@, pen: *final(p) }) == (Painted {
                out: old(out)@,
                pen: *old(p),
            }).drew_screen(self@, rows_before(was)),
    {
        self.draw_rows(p, out, was);
        self.settle(p, out);
        ink(p, out, self.modes().attrs);
    }

    /// The text of the screen. Empty cells at the end of a row and empty lines at the end are
    /// left out.
    pub fn contents(&self) -> (r: String)
        requires
            self.wf(),
        ensures
            r@ == without_trailing(rows_text(self@.grid.rows, 0), '\n'),
    {
        let ghost rows = self@.grid.rows;
        let (n, cols) = self.size();
        let mut out = String::new();
        let mut i: u16 = 0;
        assert(out@ + rows_text(rows, 0) =~= rows_text(rows, 0));
        while i < n
            invariant
                i <= n,
                n == rows.len(),
                rows == self@.grid.rows,
                cols == self@.grid.ncols,
                self.wf(),
                out@ + rows_text(rows, i as int) == rows_text(rows, 0),
            decreases n - i,
        {
            let ghost before = out@;
            assert(rows[i as int].cells.len() == cols);
            self.push_row(&mut out, i, 0, cols);
            let ghost line = out@;
            if !self.row_wrapped(i) {
                out.append("\n");
            }
            let ghost end = if rows[i as int].wrapped {
                Seq::<char>::empty()
            } else {
                "\n"@
            };
            assert(out@ =~= line + end);
            assert(out@ + rows_text(rows, i + 1) =~= before + rows_text(rows, i as int));
            i += 1;
        }
        assert(out@ =~= rows_text(rows, 0));
        let chars = chars_of(out.as_str());
        string_of(strip_trailing(chars.as_slice(), '\n'))
    }

    fn push_row(&self, out: &mut String, row: u16, start: u16, width: u16)
        requires
            self.wf(),
            row < self@.grid.rows.len(),
        ensures
            final(out)@ == old(out)@ + row_text(
                self@.grid.rows[row as int],
                start as int,
                width as int,
            ),
    {
        assert(self@.grid.rows[row as int].cells.len() == self@.grid.ncols);
        if let Some(r) = self.row(row) {
            push_row(out, r, start, width);
        }
    }

    /// The text of `width` columns of each row from `start` on.
    pub fn rows(&self, start: u16, width: u16) -> (r: Vec<String>)
        requires
            self.wf(),
        ensures
            r@.len() == self@.grid.rows.len(),
            forall|i: int|
                0 <= i < r@.len() ==> (#[trigger] r@[i])@ == row_text(
                    self@.grid.rows[i],
                    start as int,
                    width as int,
                ),
    {
        let (n, _) = self.size();
        let mut v: Vec<String> = Vec::new();
        let mut i: u16 = 0;
        while i < n
            invariant
                i <= n,
                n == self@.grid.rows.len(),
                self.wf(),
                v@.len() == i,
                forall|j: int|
                    0 <= j < i ==> (#[trigger] v@[j])@ == row_text(
                        self@.grid.rows[j],
                        start as int,
                        width as int,
                    ),
            decreases n - i,
        {
            let mut t = String::new();
            self.push_row(&mut t, i, start, width);
            assert(t@ =~= row_text(self@.grid.rows[i as int], start as int, width as int));
            v.push(t);
            i += 1;
        }
        v
    }

    /// What sets the attributes of the next character on a terminal in any state.
    pub fn attributes_formatted(&self) -> (r: Vec<u8>)
        ensures
            r@ == encode_utf8("\x1b[m"@ + escape_diff(self@.modes.attrs, no_attrs())),
    {
        let mut out = String::from_str("\x1b[m");
        let t = self.modes().attrs.escape_code_diff(&Attrs::default());
        out.append(t.as_str());
        bytes_of(&out)
    }

    /// What paints the screen on a terminal in any state.
    pub fn contents_formatted(&self) -> (r: Vec<u8>)
        requires
            self.wf(),
        ensures
            r@ == encode_utf8(whole_paint(self@)),
    {
        let mut out = String::new();
        out.append(hide_code(self.hide_cursor()));
        out.append("\x1b[m\x1b[H\x1b[J");
        let mut p = Pen { row: 0, col: 0, attrs: Attrs::default() };
        assert(out@ =~= cursor_code(self@.modes.hide_cursor) + "\x1b[m\x1b[H\x1b[J"@);
        self.draw_screen(&mut p, &mut out, None);
        bytes_of(&out)
    }

    /// What takes a terminal that shows `was` to this screen.
    pub fn contents_diff(&self, was: &Screen) -> (r: Vec<u8>)
        requires
            self.wf(),
            was.wf(),
        ensures
            r@ == encode_utf8(paint_over(self@, was@)),
    {
        let mut out = String::new();
        if self.hide_cursor() != was.hide_cursor() {
            out.append(hide_code(self.hide_cursor()));
        }
        let (row, col) = was.cursor_position();
        let mut p = Pen { row, col, attrs: was.modes().attrs };
        assert(out@ =~= (if self@.modes.hide_cursor != was@.modes.hide_cursor {
            cursor_code(self@.modes.hide_cursor)
        } else {
            Seq::empty()
        }));
        self.draw_screen(&mut p, &mut out, Some(was));
        bytes_of(&out)
    }

    /// What sets the keypad, the cursor keys, bracketed paste and the mouse as on the screen.
    pub fn input_mode_formatted(&self) -> (r: Vec<u8>)
        ensures
            r@ == encode_utf8(input_modes(self@)),
    {
        let m = self.modes();
        let mut out = String::new();
        out.append(
            if m.application_keypad {
                "\x1b="
            } else {
                "\x1b>"
            },
        );
        out.append(
            if m.application_cursor {
                "\x1b[?1h"
            } else {
                "\x1b[?1l"
            },
        );
        out.append(
            if m.bracketed_paste {
                "\x1b[?2004h"
            } else {
                "\x1b[?2004l"
            },
        );
        match m.mouse {
            MouseProtocolMode::Off => {},
            MouseProtocolMode::Press => out.append("\x1b[?9h"),
            MouseProtocolMode::PressRelease => out.append("\x1b[?1000h"),
            MouseProtocolMode::ButtonMotion => out.append("\x1b[?1002h"),
            MouseProtocolMode::AnyMotion => out.append("\x1b[?1003h"),
        }
        match m.encoding {
            MouseProtocolEncoding::Default => {},
            MouseProtocolEncoding::Utf8 => out.append("\x1b[?1005h"),
            MouseProtocolEncoding::Sgr => out.append("\x1b[?1006h"),
        }
        assert(out@ =~= input_modes(self@));
        bytes_of(&out)
    }
}

fn hide_code(hide: bool) -> (r: &'static str)
    ensures
        r@ == cursor_code(hide),
{
    if hide {
        "\x1b[?25l"
    } else {
        "\x1b[?25h"
    }
}

fn bytes_of(s: &String) -> (r: Vec<u8>)
    ensures
        r@ == encode_utf8(s@),
{
    let mut v: Vec<u8> = Vec::new();
    push_bytes(&mut v, s.as_str().as_bytes());
    assert(v@ =~= encode_utf8(s@));
    v
}

/// Nothing is written for a screen that is as it was.
pub proof fn law_same_screen_paints_nothing(s: ScreenState)
    requires
        s.ok(),
    ensures
        paint_over(s, s) == Seq::<char>::empty(),
{
    let p = Painted {
        out: Seq::empty(),
        pen: Pen { row: s.grid.row as u16, col: s.grid.col as u16, attrs: s.modes.attrs },
    };
    lemma_same_rows(p, s.grid.rows, 0);
    crate::vt::attrs::law_same_attrs_write_nothing(s.modes.attrs);
    assert(p.inked(s.modes.attrs).out =~= Seq::<char>::empty());
}

proof fn lemma_same_rows(p: Painted, rows: Seq<RowState>, r: int)
    requires
        0 <= r <= rows.len(),
    ensures
        p.drew_rows(rows, Some(rows), r) == p,
    decreases rows.len() - r,
{
    if r < rows.len() {
        lemma_same_row(p, r, rows[r].cells, 0);
        lemma_same_rows(p, rows, r + 1);
    }
}

proof fn lemma_same_row(p: Painted, r: int, cells: Seq<Glyph>, c: int)
    requires
        0 <= c <= cells.len(),
    ensures
        p.drew_row(r, cells, Some(cells), c) == p,
    decreases cells.len() - c,
{
    if c < cells.len() {
        lemma_same_row(p, r, cells, c + 1);
    }
}

} // verus!
