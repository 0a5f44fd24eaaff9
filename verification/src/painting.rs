//! A painted screen, played on a terminal, shows what it was painted from.
use crate::ansi::{
    cells_text, content_rows, cursor_text, is_cropped, look, param_if, row_text, rows_text, screen_text,
    sgr, status_text,
};
use crate::model::{plain_style, CellStyle, CellView, GridView};
use crate::paint_laws::{can_show, law_style_code_sets_the_style};
use crate::parse::{shown_grid, styled_cell, styled_row};
use crate::render::cols_of;
use crate::text::{dec, digit_char};
use crate::vt::attrs::no_attrs;
use crate::vt::cell::{is_wide_char, set_to, Tag, FULL_BYTES};
use crate::vt::cell_laws::{at, blanked, law_lines_are_erased, law_screens_are_erased};
use crate::vt::cursor_laws::{
    csi, csi2, esc, law_cursor_goes_to_place, law_cursor_is_shown_and_hidden, law_home, only_cursor_moved,
    private,
};
use crate::vt::dump::{input_modes, Painted};
use crate::vt::grid::{columns, undrawn, GridState};
use crate::vt::look_laws::{
    law_style_sequence_sets_attributes, lemma_number_read, look_of, only_style_set,
};
use crate::vt::mode_laws::{
    law_flags_are_set_and_reset, law_keypad_is_switched, law_mouse_encodings, law_mouse_modes,
    mouse_number,
};
use crate::vt::parser::{all_played, played, EventView};
use crate::vt::row::{is_half, lemma_mended_whole, mended, one_sided, unmended, whole, Glyph};
use crate::vt::screen::{
    fresh_screen, Modes, MouseProtocolEncoding, MouseProtocolMode, ScreenState,
};
use crate::vt::sgr_laws::{
    law_read_attributes_are_proper, lemma_one_more, lemma_one_text, lemma_two_digits, params_text, plain,
    proper,
};
use crate::vt::spelling::{
    lemma_spells_char, lemma_spells_escape, lemma_spells_join, lemma_spells_nothing, lemma_spells_raw, lemma_spells_sequence, sequence, spelled,
    spells,
};
use vstd::prelude::*;
use vstd::utf8::encode_utf8;

verus! {

// ---- texts that take a screen to another ----

proof fn lemma_played_join(s: ScreenState, a: Seq<EventView>, b: Seq<EventView>, i: int)
    requires
        0 <= i <= a.len(),
    ensures
        all_played(s, a + b, i) == all_played(all_played(s, a, i), b, 0),
    decreases a.len() - i,
{
    if i < a.len() {
        assert((a + b)[i] == a[i]);
        lemma_played_join(played(s, a[i]), a, b, i + 1);
    } else {
        lemma_played_shift(s, a, b, 0);
    }
}

proof fn lemma_played_shift(s: ScreenState, a: Seq<EventView>, b: Seq<EventView>, i: int)
    requires
        0 <= i <= b.len(),
    ensures
        all_played(s, a + b, a.len() + i) == all_played(s, b, i),
    decreases b.len() - i,
{
    if i < b.len() {
        assert((a + b)[a.len() + i] == b[i]);
        lemma_played_shift(played(s, b[i]), a, b, i + 1);
    }
}

/// Whether a text, played on a screen, makes another one of it, whatever follows.
#[verifier::opaque]
pub open spec fn leads(t: Seq<char>, s: ScreenState, r: ScreenState) -> bool {
    exists|e: Seq<EventView>| #[trigger] spells(t, e) && all_played(s, e, 0) == r
}

proof fn lemma_leads_join(t: Seq<char>, u: Seq<char>, s: ScreenState, r: ScreenState, q: ScreenState)
    requires
        leads(t, s, r),
        leads(u, r, q),
    ensures
        leads(t + u, s, q),
{
    reveal(leads);
    let e = choose|e: Seq<EventView>| #[trigger] spells(t, e) && all_played(s, e, 0) == r;
    let f = choose|f: Seq<EventView>| #[trigger] spells(u, f) && all_played(r, f, 0) == q;
    lemma_spells_join(t, e, u, f);
    lemma_played_join(s, e, f, 0);
}

proof fn lemma_leads_nowhere(s: ScreenState)
    ensures
        leads(Seq::empty(), s, s),
{
    reveal(leads);
    lemma_spells_nothing();
    assert(all_played(s, Seq::empty(), 0) == s);
}

proof fn lemma_leads_event(t: Seq<char>, e: EventView, s: ScreenState)
    requires
        spells(t, seq![e]),
    ensures
        leads(t, s, played(s, e)),
{
    reveal(leads);
    let v = seq![e];
    assert(v[0] == e);
    assert(all_played(played(s, e), v, 1) == played(s, e));
    assert(all_played(s, v, 0) == played(s, e));
}

/// What a text leads to is what the events that it spells make of the screen.
pub proof fn lemma_leads_played(t: Seq<char>, s: ScreenState, r: ScreenState)
    requires
        leads(t, s, r),
    ensures
        all_played(s, spelled(t), 0) == r,
{
    reveal(leads);
    let e = choose|e: Seq<EventView>| #[trigger] spells(t, e) && all_played(s, e, 0) == r;
    crate::vt::spelling::lemma_spells_whole(t, e);
}

// ---- one cell ----

/// Whether a terminal takes a character as text.
pub open spec fn printable(c: char) -> bool {
    &&& c as u32 != 0xfffd && !(0x80 <= c as u32 && (c as u32) < 0xa0)
    &&& !undrawn(c)
    &&& c != '\x1b'
}

/// Whether a terminal can hold a cell: a blank, or a character of one column, or of two for a
/// wide cell, with combining ones that find room behind it.
pub open spec fn can_hold(c: CellView) -> bool {
    &&& can_show(look(c))
    &&& c.text.len() == 0 ==> !c.style.wide
    &&& c.text.len() > 0 ==> columns(c.text[0]) == (if c.style.wide {
        2int
    } else {
        1int
    })
    &&& forall|i: int| 0 <= i < c.text.len() ==> printable(#[trigger] c.text[i])
    &&& forall|i: int| 1 <= i < c.text.len() ==> columns(#[trigger] c.text[i]) == 0
    &&& forall|i: int|
        1 <= i < c.text.len() ==> encode_utf8(#[trigger] c.text.take(i)).len() < FULL_BYTES
}

/// Whether a screen is as in the middle of a row: text overwrites, rows are counted from the
/// top, and the attributes are such as there are.
pub open spec fn calm(s: ScreenState) -> bool {
    &&& s.ok()
    &&& !s.modes.insert
    &&& !s.grid.origin
    &&& proper(s.modes.attrs)
    &&& s.modes.attrs.link is None
}

/// The cells of the cursor's row.
pub open spec fn here(s: ScreenState) -> Seq<Glyph> {
    s.grid.rows[s.grid.row].cells
}

/// Whether a cell is a blank without a look.
pub open spec fn bare(c: Glyph) -> bool {
    c.text.len() == 0 && !c.wide && !c.continuation && look_of(c.attrs) == plain_style()
}

/// Whether the cells of the cursor's row are bare from a column on.
pub open spec fn bare_from(s: ScreenState, k: int) -> bool {
    forall|j: int| k <= j < s.grid.ncols ==> bare(#[trigger] here(s)[j])
}

/// Whether two screens differ at most in the row that the cursor is in, its column, and what
/// was printed last.
pub open spec fn same_around(t: ScreenState, s: ScreenState) -> bool {
    &&& t == (ScreenState {
        grid: GridState { rows: t.grid.rows, col: t.grid.col, ..s.grid },
        modes: Modes { last: t.modes.last, attrs: t.modes.attrs, ..s.modes },
        ..s
    })
    &&& t.grid.rows.len() == s.grid.rows.len()
    &&& forall|i: int|
        0 <= i < s.grid.rows.len() && i != s.grid.row ==> #[trigger] t.grid.rows[i] == s.grid.rows[i]
}

proof fn lemma_printed(s: ScreenState, c: char)
    requires
        printable(c),
    ensures
        played(s, EventView::Print(c)) == s.texted(c),
{
    reveal(played);
}

#[verifier::rlimit(40)]
proof fn lemma_put(s: ScreenState, c: char) -> (t: ScreenState)
    requires
        calm(s),
        printable(c),
        columns(c) > 0,
        s.grid.col + columns(c) <= s.grid.ncols,
        bare_from(s, s.grid.col),
    ensures
        t == played(s, EventView::Print(c)),
        calm(t),
        same_around(t, s),
        t.modes.attrs == s.modes.attrs,
        t.grid.col == s.grid.col + columns(c),
        here(t).len() == s.grid.ncols,
        here(t)[s.grid.col] == set_to::<Tag>(c, s.modes.attrs),
        columns(c) == 2 ==> here(t)[s.grid.col + 1].continuation,
        forall|j: int|
            0 <= j < s.grid.ncols && !(s.grid.col <= j < s.grid.col + columns(c)) ==> #[trigger] here(t)[j]
                == here(s)[j],
        is_wide_char(c) == (columns(c) == 2),
{
    lemma_printed(s, c);
    let t = played(s, EventView::Print(c));
    let x = here(s);
    let k = s.grid.col;
    assert(s.grid.rows[s.grid.row].cells.len() == s.grid.ncols && whole(x));
    let u = unmended(x, k, c, s.modes.attrs);
    let w = columns(c);
    assert forall|j: int| 0 <= j < x.len() implies !(#[trigger] is_half(u, j)) by {
        assert(!is_half(x, j));
        assert(bare(x[k]));
        if k + 1 < x.len() {
            assert(bare(x[k + 1]));
        }
        if k > 0 {
            assert(!is_half(x, k - 1));
        }
        if k + 2 < x.len() {
            assert(bare(x[k + 2]));
        }
    }
    assert(one_sided(u)) by {
        assert forall|j: int| 0 <= j < u.len() implies !((#[trigger] u[j]).wide && u[j].continuation) by {
            assert(!is_half(x, j));
        }
    }
    lemma_mended_whole(u);
    assert(mended(u) =~= u);
    assert(here(t) == mended(u));
    assert(t.grid.rows[s.grid.row].cells == u);
    t
}

#[verifier::rlimit(40)]
proof fn lemma_combine(s: ScreenState, z: char, k: int) -> (t: ScreenState)
    requires
        calm(s),
        printable(z),
        columns(z) == 0,
        0 <= k < s.grid.col,
        k + 1 == s.grid.col || (k + 2 == s.grid.col && here(s)[k + 1].continuation),
        !here(s)[k].continuation,
    ensures
        t == played(s, EventView::Print(z)),
        calm(t),
        same_around(t, s),
        t.modes.attrs == s.modes.attrs,
        t.grid.col == s.grid.col,
        here(t) == here(s).update(k, here(s)[k].appended(z)),
{
    lemma_printed(s, z);
    assert(s.grid.base_cell() == Some((s.grid.row, k)));
    let t = played(s, EventView::Print(z));
    let x = here(s);
    assert(s.grid.rows[s.grid.row].cells.len() == s.grid.ncols && whole(x));
    let y = x.update(k, x[k].appended(z));
    assert(whole(y)) by {
        assert forall|j: int| 0 <= j < y.len() implies !(#[trigger] is_half(y, j)) && !(y[j].wide
            && y[j].continuation) by {
            assert(!is_half(x, j));
        }
    }
    t
}

proof fn lemma_leads_char(c: char, s: ScreenState)
    requires
        c != '\x1b',
    ensures
        leads(seq![c], s, played(s, EventView::Print(c))),
{
    lemma_spells_char(c);
    lemma_leads_event(seq![c], EventView::Print(c), s);
}

proof fn lemma_rest_of_text(s: ScreenState, c: CellView, i: int, k: int) -> (t: ScreenState)
    requires
        calm(s),
        can_hold(c),
        1 <= i <= c.text.len(),
        0 <= k < s.grid.col,
        k + 1 == s.grid.col || (k + 2 == s.grid.col && here(s)[k + 1].continuation),
        !here(s)[k].continuation,
        here(s)[k].text == c.text.take(i),
    ensures
        leads(c.text.skip(i), s, t),
        calm(t),
        same_around(t, s),
        t.modes.attrs == s.modes.attrs,
        t.grid.col == s.grid.col,
        here(t) == here(s).update(k, (crate::vt::cell::CellState { text: c.text, ..here(s)[k] })),
    decreases c.text.len() - i,
{
    let x = here(s);
    assert(s.grid.rows[s.grid.row].cells.len() == s.grid.ncols);
    if i == c.text.len() {
        lemma_leads_nowhere(s);
        assert(c.text.skip(i) =~= Seq::empty());
        assert(c.text.take(i) =~= c.text);
        assert(x =~= x.update(k, (crate::vt::cell::CellState { text: c.text, ..x[k] })));
        s
    } else {
        let z = c.text[i];
        assert(printable(z) && columns(z) == 0);
        let r = lemma_combine(s, z, k);
        let one = seq![z];
        lemma_leads_char(z, s);
        assert(encode_utf8(c.text.take(i)).len() < FULL_BYTES);
        assert(c.text.take(i).push(z) =~= c.text.take(i + 1));
        assert(here(r)[k].text == c.text.take(i + 1));
        assert(k + 2 == s.grid.col ==> here(r)[k + 1] == x[k + 1]);
        let t = lemma_rest_of_text(r, c, i + 1, k);
        lemma_leads_join(one, c.text.skip(i + 1), s, r, t);
        assert(one + c.text.skip(i + 1) =~= c.text.skip(i));
        assert(here(t) =~= x.update(k, (crate::vt::cell::CellState { text: c.text, ..x[k] })));
        t
    }
}

/// The text that a cell is painted as.
spec fn painted_text(c: CellView) -> Seq<char> {
    if c.text.len() == 0 {
        " "@
    } else {
        c.text
    }
}

/// What a cell shows: a blank shows a space.
pub open spec fn shown_cell(c: CellView) -> CellView {
    if c.text.len() == 0 {
        CellView { text: " "@, ..c }
    } else {
        c
    }
}

/// How many columns a cell takes.
pub open spec fn width(c: CellView) -> int {
    if c.style.wide {
        2
    } else {
        1
    }
}

/// Whether a space is a character of one column.
pub open spec fn space_is_narrow() -> bool {
    printable(' ') && columns(' ') == 1
}

proof fn lemma_cell_text(s: ScreenState, c: CellView) -> (t: ScreenState)
    requires
        calm(s),
        can_hold(c),
        space_is_narrow(),
        look_of(s.modes.attrs) == look(c),
        s.grid.col + width(c) <= s.grid.ncols,
        bare_from(s, s.grid.col),
    ensures
        leads(painted_text(c), s, t),
        calm(t),
        same_around(t, s),
        t.modes.attrs == s.modes.attrs,
        t.grid.col == s.grid.col + width(c),
        here(t).len() == s.grid.ncols,
        styled_cell(here(t)[s.grid.col]) == shown_cell(c),
        !here(t)[s.grid.col].continuation,
        width(c) == 2 ==> here(t)[s.grid.col + 1].continuation,
        forall|j: int|
            0 <= j < s.grid.ncols && !(s.grid.col <= j < s.grid.col + width(c)) ==> #[trigger] here(t)[j]
                == here(s)[j],
{
    reveal_strlit(" ");
    let k = s.grid.col;
    if c.text.len() == 0 {
        let t = lemma_put(s, ' ');
        assert(" "@ =~= seq![' ']);
        lemma_leads_char(' ', s);
        assert(styled_cell(here(t)[k]).style == look_of(s.modes.attrs));
        assert(styled_cell(here(t)[k]).text =~= " "@);
        t
    } else {
        let b = c.text[0];
        assert(printable(b));
        let r = lemma_put(s, b);
        let one = seq![b];
        lemma_leads_char(b, s);
        assert(c.text.take(1) =~= one);
        let t = lemma_rest_of_text(r, c, 1, k);
        lemma_leads_join(one, c.text.skip(1), s, r, t);
        assert(one + c.text.skip(1) =~= c.text);
        let g = here(t)[k];
        assert(g.text == c.text);
        assert(styled_cell(g).style == (CellStyle { wide: g.wide, ..look_of(s.modes.attrs) }));
        t
    }
}

proof fn lemma_restyled(s: ScreenState, c: CellView) -> (t: ScreenState)
    requires
        calm(s),
        can_show(look(c)),
    ensures
        leads(sgr(look(c)), s, t),
        calm(t),
        same_around(t, s),
        t.grid == s.grid,
        look_of(t.modes.attrs) == look(c),
{
    law_style_code_sets_the_style(s, look(c));
    let p = choose|p: Seq<Seq<u16>>|
        #![trigger sequence(false, p, 'm')]
        {
            let t = played(s, sequence(false, p, 'm'));
            &&& spells(sgr(look(c)), seq![sequence(false, p, 'm')])
            &&& look_of(t.modes.attrs) == look(c)
            &&& proper(t.modes.attrs)
            &&& t.modes.attrs.link == s.modes.attrs.link
            &&& only_style_set(t, s)
        };
    let t = played(s, sequence(false, p, 'm'));
    lemma_leads_event(sgr(look(c)), sequence(false, p, 'm'), s);
    t
}

// ---- one row ----

/// Whether two rows of cells agree before a column.
pub open spec fn agree(x: Seq<Glyph>, y: Seq<Glyph>, k: int) -> bool {
    x.len() == y.len() && forall|j: int| 0 <= j < k ==> #[trigger] x[j] == y[j]
}

/// Whether the cells of a row before a column show these cells, whatever is behind.
#[verifier::opaque]
pub open spec fn shows_before(x: Seq<Glyph>, k: int, done: Seq<CellView>) -> bool {
    forall|y: Seq<Glyph>| #[trigger] agree(y, x, k) ==> styled_row(y, 0) == done + styled_row(y, k)
}

proof fn lemma_shows_more(x: Seq<Glyph>, k: int, done: Seq<CellView>, x2: Seq<Glyph>, c: CellView)
    requires
        shows_before(x, k, done),
        0 <= k,
        k + width(c) <= x2.len(),
        agree(x2, x, k),
        styled_cell(x2[k]) == shown_cell(c),
        !x2[k].continuation,
        width(c) == 2 ==> x2[k + 1].continuation,
    ensures
        shows_before(x2, k + width(c), done.push(shown_cell(c))),
{
    reveal(shows_before);
    let n = k + width(c);
    assert forall|y: Seq<Glyph>| #[trigger] agree(y, x2, n) implies styled_row(y, 0) == done.push(
        shown_cell(c),
    ) + styled_row(y, n) by {
        assert(agree(y, x, k)) by {
            assert forall|j: int| 0 <= j < k implies #[trigger] y[j] == x[j] by {
                assert(y[j] == x2[j] && x2[j] == x[j]);
            }
        }
        assert(y[k] == x2[k]);
        reveal_with_fuel(styled_row, 3);
        if width(c) == 2 {
            assert(y[k + 1] == x2[k + 1]);
        }
        assert(styled_row(y, k) == seq![shown_cell(c)] + styled_row(y, n));
        assert(done + (seq![shown_cell(c)] + styled_row(y, n)) =~= done.push(shown_cell(c)) + styled_row(
            y,
            n,
        ));
    }
}

/// The cells as they are shown.
pub open spec fn shown_cells(cells: Seq<CellView>) -> Seq<CellView> {
    Seq::new(cells.len(), |i: int| shown_cell(cells[i]))
}

/// Whether a terminal can hold all of the cells, and they fit in the columns.
pub open spec fn row_fits(cells: Seq<CellView>, vcols: int) -> bool {
    &&& forall|i: int| 0 <= i < cells.len() ==> can_hold(#[trigger] cells[i])
    &&& cols_of(cells) <= vcols
}

proof fn lemma_cols_step(cells: Seq<CellView>, k: int)
    requires
        0 <= k < cells.len(),
    ensures
        cols_of(cells.take(k + 1)) == cols_of(cells.take(k)) + width(cells[k]),
{
    assert(cells.take(k + 1).drop_last() =~= cells.take(k));
}

proof fn lemma_cols_grow(cells: Seq<CellView>, k: int)
    requires
        0 <= k <= cells.len(),
    ensures
        cols_of(cells.take(k)) + (cells.len() - k) <= cols_of(cells),
    decreases cells.len() - k,
{
    if k < cells.len() {
        lemma_cols_step(cells, k);
        lemma_cols_grow(cells, k + 1);
    } else {
        assert(cells.take(k) =~= cells);
    }
}

proof fn lemma_cells(s: ScreenState, cells: Seq<CellView>, k: int, cur: Option<CellStyle>) -> (t:
    ScreenState)
    requires
        calm(s),
        space_is_narrow(),
        row_fits(cells, s.grid.ncols),
        0 <= k <= cells.len(),
        s.grid.col == cols_of(cells.take(k)),
        bare_from(s, s.grid.col),
        cur matches Some(l) ==> look_of(s.modes.attrs) == l,
        shows_before(here(s), s.grid.col, shown_cells(cells.take(k))),
    ensures
        leads(cells_text(cells, k, s.grid.col, cur, s.grid.ncols), s, t),
        calm(t),
        same_around(t, s),
        t.grid.col == cols_of(cells),
        bare_from(t, t.grid.col),
        shows_before(here(t), t.grid.col, shown_cells(cells)),
    decreases cells.len() - k,
{
    let col = s.grid.col;
    let vcols = s.grid.ncols;
    if k == cells.len() {
        lemma_leads_nowhere(s);
        assert(cells.take(k) =~= cells);
        s
    } else {
        let c = cells[k];
        assert(can_hold(c));
        lemma_cols_step(cells, k);
        lemma_cols_grow(cells, k + 1);
        let styled = if cur == Some(look(c)) {
            lemma_leads_nowhere(s);
            s
        } else {
            lemma_restyled(s, c)
        };
        let code = if cur == Some(look(c)) {
            Seq::empty()
        } else {
            sgr(look(c))
        };
        assert(leads(code, s, styled));
        assert(here(styled) == here(s));
        assert(bare_from(styled, col));
        let r = lemma_cell_text(styled, c);
        lemma_leads_join(code, painted_text(c), s, styled, r);
        let done = shown_cells(cells.take(k));
        assert(agree(here(r), here(s), col)) by {
            assert(s.grid.rows[s.grid.row].cells.len() == s.grid.ncols);
        }
        lemma_shows_more(here(s), col, done, here(r), c);
        assert(done.push(shown_cell(c)) =~= shown_cells(cells.take(k + 1)));
        assert(bare_from(r, r.grid.col)) by {
            assert forall|j: int| r.grid.col <= j < r.grid.ncols implies bare(#[trigger] here(r)[j]) by {
                assert(here(r)[j] == here(s)[j]);
            }
        }
        let t = lemma_cells(r, cells, k + 1, Some(look(c)));
        lemma_leads_join(
            code + painted_text(c),
            cells_text(cells, k + 1, r.grid.col, Some(look(c)), vcols),
            s,
            r,
            t,
        );
        assert(cells_text(cells, k, col, cur, vcols) == code + painted_text(c) + cells_text(
            cells,
            k + 1,
            r.grid.col,
            Some(look(c)),
            vcols,
        ));
        t
    }
}

/// A cell that nothing was written in.
pub open spec fn blank_cell() -> CellView {
    CellView { text: " "@, style: plain_style() }
}

/// Cells that nothing was written in.
pub open spec fn blanks(n: int) -> Seq<CellView> {
    Seq::new(n as nat, |i: int| blank_cell())
}

proof fn lemma_bare_row(x: Seq<Glyph>, k: int)
    requires
        0 <= k <= x.len(),
        forall|j: int| k <= j < x.len() ==> bare(#[trigger] x[j]),
    ensures
        styled_row(x, k) == blanks(x.len() - k),
    decreases x.len() - k,
{
    if k < x.len() {
        lemma_bare_row(x, k + 1);
        assert(bare(x[k]));
        assert(styled_cell(x[k]) == blank_cell());
        assert(seq![blank_cell()] + blanks(x.len() - k - 1) =~= blanks(x.len() - k));
    } else {
        assert(blanks(0) =~= Seq::empty());
    }
}

/// Whether two screens differ at most in the cells of one row, the cursor's place, and what is
/// written next and was written last.
pub open spec fn same_beside_row(t: ScreenState, s: ScreenState, r: int) -> bool {
    &&& t == (ScreenState {
        grid: GridState { rows: t.grid.rows, row: t.grid.row, col: t.grid.col, ..s.grid },
        modes: Modes { last: t.modes.last, attrs: t.modes.attrs, ..s.modes },
        ..s
    })
    &&& t.grid.rows.len() == s.grid.rows.len()
    &&& forall|i: int|
        0 <= i < s.grid.rows.len() && i != r ==> #[trigger] t.grid.rows[i] == s.grid.rows[i]
}

proof fn lemma_go(s: ScreenState, r: int, c: int) -> (t: ScreenState)
    requires
        calm(s),
        0 <= r < s.grid.rows.len(),
        0 <= c < s.grid.ncols,
        r < 0xffff,
        c < 0xffff,
    ensures
        leads(seq!['\x1b', '['] + dec((r + 1) as nat) + seq![';'] + dec((c + 1) as nat) + seq!['H'], s, t),
        calm(t),
        only_cursor_moved(t, s),
        t.grid.row == r,
        t.grid.col == c,
{
    let (n, m) = ((r + 1) as u16, (c + 1) as u16);
    let p = seq![plain(n), plain(m)];
    lemma_one_text(n);
    lemma_one_more(seq![plain(n)], m);
    assert(seq![plain(n)].push(plain(m)) =~= p);
    reveal_strlit(";");
    let text = seq!['\x1b', '['] + dec(n as nat) + seq![';'] + dec(m as nat) + seq!['H'];
    assert(text =~= seq!['\x1b', '['] + params_text(p) + seq!['H']);
    lemma_spells_sequence(text, false, p, 'H');
    assert(p =~= seq![seq![n], seq![m]]);
    lemma_leads_event(text, csi2(n, m, 'H'), s);
    law_cursor_goes_to_place(s, n, m);
    played(s, csi2(n, m, 'H'))
}

proof fn lemma_reset(s: ScreenState) -> (t: ScreenState)
    requires
        calm(s),
    ensures
        leads("\x1b[0m"@, s, t),
        calm(t),
        only_style_set(t, s),
        look_of(t.modes.attrs) == plain_style(),
{
    reveal_strlit("\x1b[0m");
    let p = seq![plain(0)];
    lemma_one_text(0);
    assert(dec(0) =~= seq!['0']);
    assert("\x1b[0m"@ =~= seq!['\x1b', '['] + params_text(p) + seq!['m']);
    lemma_spells_sequence("\x1b[0m"@, false, p, 'm');
    lemma_leads_event("\x1b[0m"@, sequence(false, p, 'm'), s);
    law_style_sequence_sets_attributes(s, p);
    let b = lemma_number_read(s.modes.attrs, 0, Seq::empty());
    assert(seq![plain(0)] + Seq::<Seq<u16>>::empty() =~= p);
    played(s, sequence(false, p, 'm'))
}

proof fn lemma_clear_line(s: ScreenState) -> (t: ScreenState)
    requires
        calm(s),
        s.grid.col == 0,
        look_of(s.modes.attrs) == plain_style(),
    ensures
        leads("\x1b[K"@, s, t),
        calm(t),
        same_around(t, s),
        t.modes == s.modes,
        t.grid.col == 0,
        bare_from(t, 0),
        here(t).len() == s.grid.ncols,
{
    reveal_strlit("\x1b[K");
    let x = Seq::<char>::empty();
    assert("\x1b[K"@ =~= seq!['\x1b', '['] + x + seq!['K']);
    lemma_spells_raw("\x1b[K"@, false, x, 'K');
    lemma_leads_event("\x1b[K"@, csi(0, 'K'), s);
    law_lines_are_erased(s, 0);
    let t = played(s, csi(0, 'K'));
    let y = here(t);
    assert forall|j: int| 0 <= j < y.len() implies bare(#[trigger] y[j]) by {
        assert(blanked(at(t, s.grid.row, j), s));
    }
    assert(whole(y)) by {
        assert forall|j: int| 0 <= j < y.len() implies !(#[trigger] is_half(y, j)) && !(y[j].wide
            && y[j].continuation) by {
            assert(bare(y[j]));
        }
    }
    t
}

proof fn lemma_row(s: ScreenState, r: int, cells: Seq<CellView>) -> (t: ScreenState)
    requires
        calm(s),
        space_is_narrow(),
        0 <= r < s.grid.rows.len(),
        r < 0xffff,
        row_fits(cells, s.grid.ncols),
    ensures
        leads(row_text(r, cells, s.grid.ncols), s, t),
        calm(t),
        same_beside_row(t, s, r),
        look_of(t.modes.attrs) == plain_style(),
        styled_row(t.grid.rows[r].cells, 0) == shown_cells(cells) + blanks(
            s.grid.ncols - cols_of(cells),
        ),
{
    let vcols = s.grid.ncols;
    let go = seq!['\x1b', '['] + dec((r + 1) as nat) + seq![';'] + dec(1) + seq!['H'];
    let a = lemma_go(s, r, 0);
    let b = lemma_reset(a);
    lemma_leads_join(go, "\x1b[0m"@, s, a, b);
    let c = lemma_clear_line(b);
    lemma_leads_join(go + "\x1b[0m"@, "\x1b[K"@, s, b, c);
    assert(cells.take(0) =~= Seq::empty());
    assert(shown_cells(cells.take(0)) =~= Seq::empty());
    assert(shows_before(here(c), 0, Seq::empty())) by {
        reveal(shows_before);
        assert forall|y: Seq<Glyph>| #[trigger] agree(y, here(c), 0) implies styled_row(y, 0)
            == Seq::<CellView>::empty() + styled_row(y, 0) by {
            assert(Seq::<CellView>::empty() + styled_row(y, 0) =~= styled_row(y, 0));
        }
    }
    lemma_cols_grow(cells, 0);
    let d = lemma_cells(c, cells, 0, None);
    let body = cells_text(cells, 0, 0, None, vcols);
    lemma_leads_join(go + "\x1b[0m"@ + "\x1b[K"@, body, s, c, d);
    let t = lemma_reset(d);
    lemma_leads_join(go + "\x1b[0m"@ + "\x1b[K"@ + body, "\x1b[0m"@, s, d, t);
    reveal_strlit("\x1b[");
    reveal_strlit(";1H\x1b[0m\x1b[K");
    reveal_strlit("\x1b[0m");
    reveal_strlit("\x1b[K");
    assert(dec(1) =~= seq!['1']);
    assert(row_text(r, cells, vcols) =~= go + "\x1b[0m"@ + "\x1b[K"@ + body + "\x1b[0m"@);
    let x = here(d);
    assert(styled_row(x, 0) == shown_cells(cells) + styled_row(x, d.grid.col)) by {
        reveal(shows_before);
        assert(agree(x, x, d.grid.col));
    }
    assert(d.grid.rows[d.grid.row].cells.len() == d.grid.ncols);
    lemma_bare_row(x, d.grid.col);
    t
}

// ---- the screen ----

/// Whether a row of a screen shows these cells, and blanks behind them.
pub open spec fn showing(s: ScreenState, r: int, cells: Seq<CellView>) -> bool {
    styled_row(s.grid.rows[r].cells, 0) == shown_cells(cells) + blanks(s.grid.ncols - cols_of(cells))
}

/// Whether a screen is ready to be painted on: it is calm, and text would be plain.
pub open spec fn ready(s: ScreenState) -> bool {
    calm(s) && look_of(s.modes.attrs) == plain_style()
}

proof fn lemma_rows(s: ScreenState, prev: Option<GridView>, g: GridView, n: int) -> (t: ScreenState)
    requires
        ready(s),
        space_is_narrow(),
        0 <= n <= g.rows.len(),
        n <= s.grid.rows.len(),
        forall|i: int| 0 <= i < n ==> row_fits(#[trigger] g.rows[i], s.grid.ncols),
        prev matches Some(p) ==> forall|i: int| 0 <= i < n ==> showing(s, i, #[trigger] p.rows[i]),
    ensures
        leads(rows_text(prev, g, n, s.grid.ncols), s, t),
        ready(t),
        t == (ScreenState {
            grid: GridState { rows: t.grid.rows, row: t.grid.row, col: t.grid.col, ..s.grid },
            modes: Modes { last: t.modes.last, attrs: t.modes.attrs, ..s.modes },
            ..s
        }),
        t.grid.rows.len() == s.grid.rows.len(),
        forall|i: int| 0 <= i < n ==> showing(t, i, #[trigger] g.rows[i]),
        forall|i: int| n <= i < s.grid.rows.len() ==> #[trigger] t.grid.rows[i] == s.grid.rows[i],
    decreases n,
{
    if n == 0 {
        lemma_leads_nowhere(s);
        s
    } else {
        let vcols = s.grid.ncols;
        let r = lemma_rows(s, prev, g, n - 1);
        let before = rows_text(prev, g, n - 1, vcols);
        assert(row_fits(g.rows[n - 1], vcols));
        let same = prev matches Some(p) && p.rows[n - 1] == g.rows[n - 1];
        if same {
            assert(showing(s, n - 1, prev->0.rows[n - 1]));
            assert(before + Seq::<char>::empty() =~= before);
            assert(r.grid.rows[n - 1] == s.grid.rows[n - 1]);
            assert forall|i: int| 0 <= i < n implies showing(r, i, #[trigger] g.rows[i]) by {}
            r
        } else {
            let t = lemma_row(r, n - 1, g.rows[n - 1]);
            lemma_leads_join(before, row_text(n - 1, g.rows[n - 1], vcols), s, r, t);
            assert forall|i: int| 0 <= i < n implies showing(t, i, #[trigger] g.rows[i]) by {
                if i < n - 1 {
                    assert(showing(r, i, g.rows[i]));
                    assert(t.grid.rows[i] == r.grid.rows[i]);
                }
            }
            t
        }
    }
}

proof fn lemma_clear_screen(s: ScreenState) -> (t: ScreenState)
    requires
        ready(s),
    ensures
        leads("\x1b[2J\x1b[H"@, s, t),
        ready(t),
        t == (ScreenState {
            grid: GridState { rows: t.grid.rows, row: t.grid.row, col: t.grid.col, ..s.grid },
            ..s
        }),
        t.grid.rows.len() == s.grid.rows.len(),
        forall|i: int|
            0 <= i < s.grid.rows.len() ==> styled_row((#[trigger] t.grid.rows[i]).cells, 0) == blanks(
                s.grid.ncols,
            ),
{
    reveal_strlit("\x1b[2J\x1b[H");
    let j = seq!['\x1b', '[', '2', 'J'];
    let h = seq!['\x1b', '[', 'H'];
    assert("\x1b[2J\x1b[H"@ =~= j + h);
    let p = seq![plain(2)];
    lemma_one_text(2);
    assert(dec(2) =~= seq!['2']);
    assert(j =~= seq!['\x1b', '['] + params_text(p) + seq!['J']);
    lemma_spells_sequence(j, false, p, 'J');
    lemma_leads_event(j, csi(2, 'J'), s);
    law_screens_are_erased(s, 2);
    let a = played(s, csi(2, 'J'));
    assert forall|i: int| 0 <= i < a.grid.rows.len() implies (#[trigger] a.grid.rows[i]).cells.len()
        == a.grid.ncols && whole(a.grid.rows[i].cells) && styled_row(a.grid.rows[i].cells, 0) == blanks(
        s.grid.ncols,
    ) by {
        lemma_erased_len(s, i);
        let y = a.grid.rows[i].cells;
        assert forall|k: int| 0 <= k < y.len() implies bare(#[trigger] y[k]) by {
            assert(blanked(at(a, i, k), s));
        }
        assert forall|k: int| 0 <= k < y.len() implies !(#[trigger] is_half(y, k)) && !(y[k].wide
            && y[k].continuation) by {
            assert(bare(y[k]));
        }
        lemma_bare_row(y, 0);
    }
    let x = Seq::<char>::empty();
    assert(h =~= seq!['\x1b', '['] + x + seq!['H']);
    lemma_spells_raw(h, false, x, 'H');
    lemma_leads_event(h, csi(0, 'H'), a);
    law_home(a);
    let t = played(a, csi(0, 'H'));
    lemma_leads_join(j, h, s, a, t);
    t
}

proof fn lemma_erased_len(s: ScreenState, i: int)
    requires
        s.ok(),
        0 <= i < s.grid.rows.len(),
    ensures
        played(s, csi(2, 'J')).grid.rows[i].cells.len() == s.grid.ncols,
{
    reveal(played);
    assert(s.grid.rows[i].cells.len() == s.grid.ncols);
}

proof fn lemma_cursor_shown(s: ScreenState, on: bool) -> (t: ScreenState)
    requires
        ready(s),
    ensures
        leads(
            if on {
                "\x1b[?25h"@
            } else {
                "\x1b[?25l"@
            },
            s,
            t,
        ),
        ready(t),
        t == (ScreenState { modes: Modes { hide_cursor: !on, ..s.modes }, ..s }),
{
    reveal_strlit("\x1b[?25h");
    reveal_strlit("\x1b[?25l");
    let p = seq![plain(25)];
    lemma_one_text(25);
    lemma_two_digits(25);
    let c = if on {
        'h'
    } else {
        'l'
    };
    let text = if on {
        "\x1b[?25h"@
    } else {
        "\x1b[?25l"@
    };
    assert(text =~= seq!['\x1b', '[', '?'] + params_text(p) + seq![c]);
    lemma_spells_sequence(text, true, p, c);
    lemma_leads_event(text, private(25, c), s);
    law_cursor_is_shown_and_hidden(s);
    played(s, private(25, c))
}

proof fn lemma_cursor(s: ScreenState, g: GridView, view: (u16, u16)) -> (t: ScreenState)
    requires
        ready(s),
        s.grid.ncols == view.0,
        s.grid.rows.len() == view.1,
    ensures
        leads(cursor_text(g, view), s, t),
        ready(t),
        t.grid.rows == s.grid.rows,
        t.grid.ncols == s.grid.ncols,
        match g.cursor {
            Some((r, c)) => if r < content_rows(g, view) && c < view.0 {
                !t.modes.hide_cursor && t.grid.row == r && t.grid.col == c
            } else {
                t.modes.hide_cursor
            },
            None => t.modes.hide_cursor,
        },
{
    match g.cursor {
        Some((r, c)) => if r < content_rows(g, view) && c < view.0 {
            let a = lemma_go(s, r as int, c as int);
            let go = seq!['\x1b', '['] + dec((r + 1) as nat) + seq![';'] + dec((c + 1) as nat) + seq!['H'];
            let t = lemma_cursor_shown(a, true);
            lemma_leads_join(go, "\x1b[?25h"@, s, a, t);
            reveal_strlit("\x1b[");
            reveal_strlit(";");
            reveal_strlit("H\x1b[?25h");
            reveal_strlit("\x1b[?25h");
            assert(cursor_text(g, view) =~= go + "\x1b[?25h"@);
            t
        } else {
            lemma_cursor_shown(s, false)
        },
        None => lemma_cursor_shown(s, false),
    }
}

/// The text that paints a screen, played on a terminal of the view's size, leaves a terminal
/// that shows the cells of that screen row by row, in their styles, and blanks behind them; and
/// its cursor, where it is in the view. What was shown before, where only what changed is
/// painted, is what the terminal shows. The terminal is then ready to be painted on again.
pub proof fn law_painted_screen_is_shown(
    s: ScreenState,
    prev: Option<GridView>,
    g: GridView,
    view: (u16, u16),
)
    requires
        ready(s),
        space_is_narrow(),
        s.grid.ncols == view.0,
        s.grid.rows.len() == view.1,
        !is_cropped(g, view),
        forall|i: int| 0 <= i < g.rows.len() ==> row_fits(#[trigger] g.rows[i], view.0 as int),
        prev matches Some(p) ==> forall|i: int|
            0 <= i < g.rows.len() ==> showing(s, i, #[trigger] p.rows[i]),
    ensures
        ({
            let t = all_played(s, spelled(screen_text(prev, g, view)), 0);
            &&& ready(t)
            &&& t.grid.ncols == s.grid.ncols && t.grid.rows.len() == s.grid.rows.len()
            &&& forall|i: int| 0 <= i < g.rows.len() ==> showing(t, i, #[trigger] g.rows[i])
            &&& prev is None ==> forall|i: int|
                g.rows.len() <= i < t.grid.rows.len() ==> styled_row(
                    (#[trigger] t.grid.rows[i]).cells,
                    0,
                ) == blanks(t.grid.ncols)
            &&& shown_grid(t).cursor == match g.cursor {
                Some((r, c)) => if r < view.1 && c < view.0 {
                    Some((r, c))
                } else {
                    None
                },
                None => None,
            }
        }),
{
    let n = g.rows.len() as int;
    let vcols = view.0 as int;
    let clear = param_if(prev is None, "\x1b[2J\x1b[H"@);
    let a = if prev is None {
        lemma_clear_screen(s)
    } else {
        lemma_leads_nowhere(s);
        s
    };
    assert(leads(clear, s, a));
    let rows = rows_text(prev, g, n, vcols);
    let b = lemma_rows(a, prev, g, n);
    lemma_leads_join(clear, rows, s, a, b);
    let t = lemma_cursor(b, g, view);
    lemma_leads_join(clear + rows, cursor_text(g, view), s, b, t);
    let nothing = param_if(prev is None && is_cropped(g, view), status_text(g, view));
    assert(clear + rows + nothing =~= clear + rows);
    assert(screen_text(prev, g, view) == clear + rows + nothing + cursor_text(g, view));
    lemma_leads_played(screen_text(prev, g, view), s, t);
    assert forall|i: int| 0 <= i < g.rows.len() implies showing(t, i, #[trigger] g.rows[i]) by {
        assert(showing(b, i, g.rows[i]));
    }
}

/// A fresh terminal is ready to be painted on.
pub proof fn law_fresh_terminal_is_ready(rows: int, cols: int)
    requires
        1 <= rows <= 0xffff,
        1 <= cols <= 0xffff,
    ensures
        ready(fresh_screen(rows, cols)),
{
    let s = fresh_screen(rows, cols);
    law_style_sequence_sets_attributes(s, Seq::empty());
    law_read_attributes_are_proper(no_attrs(), Seq::empty());
    assert(crate::vt::sgr::sgr(no_attrs(), Seq::empty()).0 == no_attrs());
    assert forall|i: int| 0 <= i < rows implies (#[trigger] s.grid.rows[i]).cells.len() == cols && whole(
        s.grid.rows[i].cells,
    ) by {
        let y = s.grid.rows[i].cells;
        assert forall|j: int| 0 <= j < y.len() implies !(#[trigger] is_half(y, j)) && !(y[j].wide
            && y[j].continuation) by {}
    }
}

/// The code that moves the pen of a repainted screen takes a terminal's cursor there, and where
/// the pen is already there is none.
pub proof fn law_moved_pen_moves_the_cursor(s: ScreenState, p: Painted, r: u16, c: u16)
    requires
        calm(s),
        r < s.grid.rows.len(),
        c < s.grid.ncols,
        s.grid.row == p.pen.row,
        s.grid.col == p.pen.col,
    ensures
        exists|code: Seq<char>, t: ScreenState|
            #![trigger leads(code, s, t)]
            {
                &&& p.moved(r, c).out == p.out + code
                &&& leads(code, s, t)
                &&& only_cursor_moved(t, s)
                &&& t.grid.row == r && t.grid.col == c
                &&& p.moved(r, c).pen.row == r && p.moved(r, c).pen.col == c
            },
{
    if p.pen.row == r && p.pen.col == c {
        lemma_leads_nowhere(s);
        assert(p.out + Seq::<char>::empty() =~= p.out);
        assert(only_cursor_moved(s, s));
        assert(leads(Seq::empty(), s, s) && p.moved(r, c).out == p.out + Seq::<char>::empty());
    } else {
        let t = lemma_go(s, r as int, c as int);
        let code = seq!['\x1b', '['] + dec((r + 1) as nat) + seq![';'] + dec((c + 1) as nat) + seq!['H'];
        reveal_strlit("\x1b[");
        reveal_strlit(";");
        reveal_strlit("H");
        assert("\x1b["@ + dec((r + 1) as nat) + ";"@ + dec((c + 1) as nat) + "H"@ =~= code);
        assert(leads(code, s, t) && p.moved(r, c).out == p.out + code);
    }
}

// ---- the modes of a terminal ----

proof fn lemma_set(s: ScreenState, t: Seq<char>, n: u16, c: char)
    requires
        c == 'h' || c == 'l',
        t =~= seq!['\x1b', '[', '?'] + dec(n as nat) + seq![c],
    ensures
        leads(t, s, played(s, private(n, c))),
{
    let p = seq![plain(n)];
    lemma_one_text(n);
    lemma_spells_sequence(t, true, p, c);
    assert(p =~= seq![seq![n]]);
    lemma_leads_event(t, private(n, c), s);
}

proof fn lemma_escape(s: ScreenState, t: Seq<char>, c: char)
    requires
        c == '=' || c == '>',
        t =~= seq!['\x1b', c],
    ensures
        leads(t, s, played(s, esc(c as u8))),
{
    lemma_spells_escape(t, c);
    lemma_leads_event(t, esc(c as u8), s);
}

/// The codes for the input modes of a screen, played on a terminal that reports no mouse, give
/// that terminal these modes: the keypad, the cursor keys, pasting, and the mouse.
pub proof fn law_input_modes_carry_over(s: ScreenState, to: ScreenState)
    requires
        to.modes.mouse == MouseProtocolMode::Off,
        to.modes.encoding == MouseProtocolEncoding::Default,
    ensures
        all_played(to, spelled(input_modes(s)), 0) == (ScreenState {
            modes: Modes {
                application_keypad: s.modes.application_keypad,
                application_cursor: s.modes.application_cursor,
                bracketed_paste: s.modes.bracketed_paste,
                mouse: s.modes.mouse,
                encoding: s.modes.encoding,
                ..to.modes
            },
            ..to
        }),
{
    let m = s.modes;
    let none = Seq::<char>::empty();
    let p1 = if m.application_keypad {
        "\x1b="@
    } else {
        "\x1b>"@
    };
    let p2 = if m.application_cursor {
        "\x1b[?1h"@
    } else {
        "\x1b[?1l"@
    };
    let p3 = if m.bracketed_paste {
        "\x1b[?2004h"@
    } else {
        "\x1b[?2004l"@
    };
    let a = lemma_keypad(to, m.application_keypad);
    let b = lemma_keys(a, m.application_cursor);
    lemma_leads_join(p1, p2, to, a, b);
    let c = lemma_pasting(b, m.bracketed_paste);
    lemma_leads_join(p1 + p2, p3, to, b, c);
    let p4 = mouse_code(m.mouse);
    let d = lemma_mouse(c, m.mouse);
    lemma_leads_join(p1 + p2 + p3, p4, to, c, d);
    let p5 = encoding_code(m.encoding);
    let e = lemma_encoding(d, m.encoding);
    lemma_leads_join(p1 + p2 + p3 + p4, p5, to, d, e);
    assert(input_modes(s) == p1 + p2 + p3 + p4 + p5);
    lemma_leads_played(input_modes(s), to, e);
}

spec fn mouse_code(k: MouseProtocolMode) -> Seq<char> {
    match k {
        MouseProtocolMode::Off => Seq::empty(),
        MouseProtocolMode::Press => "\x1b[?9h"@,
        MouseProtocolMode::PressRelease => "\x1b[?1000h"@,
        MouseProtocolMode::ButtonMotion => "\x1b[?1002h"@,
        MouseProtocolMode::AnyMotion => "\x1b[?1003h"@,
    }
}

spec fn encoding_code(k: MouseProtocolEncoding) -> Seq<char> {
    match k {
        MouseProtocolEncoding::Default => Seq::empty(),
        MouseProtocolEncoding::Utf8 => "\x1b[?1005h"@,
        MouseProtocolEncoding::Sgr => "\x1b[?1006h"@,
    }
}

proof fn lemma_four_digits(n: nat)
    requires
        1000 <= n < 10000,
    ensures
        dec(n) =~= seq![
            digit_char(n / 1000),
            digit_char(n / 100 % 10),
            digit_char(n / 10 % 10),
            digit_char(n % 10),
        ],
{
    assert(dec(n) == dec(n / 10).push(digit_char(n % 10)));
    assert(dec(n / 10) == dec(n / 10 / 10).push(digit_char(n / 10 % 10)));
    assert(dec(n / 10 / 10) == dec(n / 10 / 10 / 10).push(digit_char(n / 10 / 10 % 10)));
    assert(dec(n / 10 / 10 / 10) =~= seq![digit_char(n / 1000)]);
}

proof fn lemma_keypad(s: ScreenState, on: bool) -> (t: ScreenState)
    ensures
        leads(
            if on {
                "\x1b="@
            } else {
                "\x1b>"@
            },
            s,
            t,
        ),
        t == (ScreenState { modes: Modes { application_keypad: on, ..s.modes }, ..s }),
{
    reveal_strlit("\x1b=");
    reveal_strlit("\x1b>");
    law_keypad_is_switched(s);
    if on {
        lemma_escape(s, "\x1b="@, '=');
        played(s, esc('=' as u8))
    } else {
        lemma_escape(s, "\x1b>"@, '>');
        played(s, esc('>' as u8))
    }
}

proof fn lemma_keys(s: ScreenState, on: bool) -> (t: ScreenState)
    ensures
        leads(
            if on {
                "\x1b[?1h"@
            } else {
                "\x1b[?1l"@
            },
            s,
            t,
        ),
        t == (ScreenState { modes: Modes { application_cursor: on, ..s.modes }, ..s }),
{
    reveal_strlit("\x1b[?1h");
    reveal_strlit("\x1b[?1l");
    law_flags_are_set_and_reset(s);
    assert(dec(1) =~= seq!['1']);
    if on {
        lemma_set(s, "\x1b[?1h"@, 1, 'h');
        played(s, private(1, 'h'))
    } else {
        lemma_set(s, "\x1b[?1l"@, 1, 'l');
        played(s, private(1, 'l'))
    }
}

proof fn lemma_pasting(s: ScreenState, on: bool) -> (t: ScreenState)
    ensures
        leads(
            if on {
                "\x1b[?2004h"@
            } else {
                "\x1b[?2004l"@
            },
            s,
            t,
        ),
        t == (ScreenState { modes: Modes { bracketed_paste: on, ..s.modes }, ..s }),
{
    reveal_strlit("\x1b[?2004h");
    reveal_strlit("\x1b[?2004l");
    law_flags_are_set_and_reset(s);
    lemma_four_digits(2004);
    if on {
        lemma_set(s, "\x1b[?2004h"@, 2004, 'h');
        played(s, private(2004, 'h'))
    } else {
        lemma_set(s, "\x1b[?2004l"@, 2004, 'l');
        played(s, private(2004, 'l'))
    }
}

proof fn lemma_mouse(s: ScreenState, k: MouseProtocolMode) -> (t: ScreenState)
    requires
        s.modes.mouse == MouseProtocolMode::Off,
    ensures
        leads(mouse_code(k), s, t),
        t == (ScreenState { modes: Modes { mouse: k, ..s.modes }, ..s }),
{
    reveal_strlit("\x1b[?9h");
    reveal_strlit("\x1b[?1000h");
    reveal_strlit("\x1b[?1002h");
    reveal_strlit("\x1b[?1003h");
    assert(dec(9) =~= seq!['9']);
    lemma_four_digits(1000);
    lemma_four_digits(1002);
    lemma_four_digits(1003);
    if k == MouseProtocolMode::Off {
        lemma_leads_nowhere(s);
        s
    } else {
        law_mouse_modes(s, k);
        lemma_set(s, mouse_code(k), mouse_number(k), 'h');
        played(s, private(mouse_number(k), 'h'))
    }
}

proof fn lemma_encoding(s: ScreenState, k: MouseProtocolEncoding) -> (t: ScreenState)
    requires
        s.modes.encoding == MouseProtocolEncoding::Default,
    ensures
        leads(encoding_code(k), s, t),
        t == (ScreenState { modes: Modes { encoding: k, ..s.modes }, ..s }),
{
    reveal_strlit("\x1b[?1005h");
    reveal_strlit("\x1b[?1006h");
    lemma_four_digits(1005);
    lemma_four_digits(1006);
    law_mouse_encodings(s);
    match k {
        MouseProtocolEncoding::Default => {
            lemma_leads_nowhere(s);
            s
        },
        MouseProtocolEncoding::Utf8 => {
            lemma_set(s, encoding_code(k), 1005, 'h');
            played(s, private(1005, 'h'))
        },
        MouseProtocolEncoding::Sgr => {
            lemma_set(s, encoding_code(k), 1006, 'h');
            played(s, private(1006, 'h'))
        },
    }
}

} // verus!
