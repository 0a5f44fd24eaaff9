//! A screen as escape codes, for a viewer in a terminal.
//!
//! A terminal smaller than the screen shows its top left, and a notice in its last row.
use crate::model::{row_view, CellStyle, CellView, Color, Frame, FrameView, Grid, GridView, StyledCell};
use crate::render::{banner_html, html_char, html_escaped};
use crate::text::{begins, chars_of, dec, push_chars, push_dec, replace_text, replaced};
use vstd::prelude::*;
use vstd::slice::slice_subrange;
use vstd::string::*;

verus! {

/// The parameter for a text or background colour; nothing for the default.
pub open spec fn color_param(c: Color, bg: bool) -> Seq<char> {
    match c {
        Color::Default => Seq::empty(),
        Color::Idx(i) => if i < 8 {
            ";"@ + dec(
                (if bg {
                    40 + i
                } else {
                    30 + i
                }) as nat,
            )
        } else if i < 16 {
            ";"@ + dec(
                (if bg {
                    92 + i
                } else {
                    82 + i
                }) as nat,
            )
        } else {
            (if bg {
                ";48;5;"@
            } else {
                ";38;5;"@
            }) + dec(i as nat)
        },
        Color::Rgb(r, g, b) => (if bg {
            ";48;2;"@
        } else {
            ";38;2;"@
        }) + dec(r as nat) + ";"@ + dec(g as nat) + ";"@ + dec(b as nat),
    }
}

/// Append the parameter for a text or background colour.
pub fn push_color(p: &mut String, c: Color, bg: bool)
    ensures
        final(p)@ == old(p)@ + color_param(c, bg),
{
    let mut t = String::new();
    match c {
        Color::Default => {},
        Color::Idx(i) => {
            if i < 8 {
                t.append(";");
                let n: u8 = if bg {
                    40 + i
                } else {
                    30 + i
                };
                push_dec(&mut t, n as u64);
            } else if i < 16 {
                t.append(";");
                let n: u8 = if bg {
                    92 + i
                } else {
                    82 + i
                };
                push_dec(&mut t, n as u64);
            } else {
                t.append(
                    if bg {
                        ";48;5;"
                    } else {
                        ";38;5;"
                    },
                );
                push_dec(&mut t, i as u64);
            }
        },
        Color::Rgb(r, g, b) => {
            t.append(
                if bg {
                    ";48;2;"
                } else {
                    ";38;2;"
                },
            );
            push_dec(&mut t, r as u64);
            t.append(";");
            push_dec(&mut t, g as u64);
            t.append(";");
            push_dec(&mut t, b as u64);
        },
    }
    assert(t@ =~= color_param(c, bg));
    p.append(t.as_str());
}

/// The parameter for an underline colour.
pub open spec fn ulcolor_param(c: Color) -> Seq<char> {
    match c {
        Color::Default => Seq::empty(),
        Color::Idx(i) => ";58;5;"@ + dec(i as nat),
        Color::Rgb(r, g, b) => ";58;2;"@ + dec(r as nat) + ";"@ + dec(g as nat) + ";"@ + dec(b as nat),
    }
}

fn push_ulcolor(p: &mut String, c: Color)
    ensures
        final(p)@ == old(p)@ + ulcolor_param(c),
{
    let mut t = String::new();
    match c {
        Color::Default => {},
        Color::Idx(i) => {
            t.append(";58;5;");
            push_dec(&mut t, i as u64);
        },
        Color::Rgb(r, g, b) => {
            t.append(";58;2;");
            push_dec(&mut t, r as u64);
            t.append(";");
            push_dec(&mut t, g as u64);
            t.append(";");
            push_dec(&mut t, b as u64);
        },
    }
    assert(t@ =~= ulcolor_param(c));
    p.append(t.as_str());
}

/// A parameter, where it is needed.
pub open spec fn param_if(on: bool, p: Seq<char>) -> Seq<char> {
    if on {
        p
    } else {
        Seq::empty()
    }
}

/// The parameter for an underline style.
pub open spec fn underline_param(n: u8) -> Seq<char> {
    if n == 0 {
        Seq::empty()
    } else if n == 1 {
        ";4"@
    } else {
        ";4:"@ + dec(n as nat)
    }
}

/// The code that sets a style and nothing else.
pub open spec fn sgr(s: CellStyle) -> Seq<char> {
    "\x1b[0"@ + param_if(s.bold, ";1"@) + param_if(s.dim, ";2"@) + param_if(s.italic, ";3"@)
        + param_if(s.strike, ";9"@) + param_if(s.inverse, ";7"@) + underline_param(s.underline)
        + ulcolor_param(s.ulcolor) + color_param(s.fg, false) + color_param(s.bg, true) + "m"@
}

fn push_if(p: &mut String, on: bool, t: &str)
    ensures
        final(p)@ == old(p)@ + param_if(on, t@),
{
    if on {
        p.append(t);
    }
    assert(p@ =~= old(p)@ + param_if(on, t@));
}

fn sgr_text(s: &CellStyle) -> (r: String)
    ensures
        r@ == sgr(*s),
{
    let mut p = String::from_str("\x1b[0");
    push_if(&mut p, s.bold, ";1");
    push_if(&mut p, s.dim, ";2");
    push_if(&mut p, s.italic, ";3");
    push_if(&mut p, s.strike, ";9");
    push_if(&mut p, s.inverse, ";7");
    let mut u = String::new();
    if s.underline == 1 {
        u.append(";4");
    } else if s.underline != 0 {
        u.append(";4:");
        push_dec(&mut u, s.underline as u64);
    }
    assert(u@ =~= underline_param(s.underline));
    p.append(u.as_str());
    push_ulcolor(&mut p, s.ulcolor);
    push_color(&mut p, s.fg, false);
    push_color(&mut p, s.bg, true);
    p.append("m");
    p
}

/// How a cell looks in a terminal: its style, but for its width.
pub open spec fn look(c: CellView) -> CellStyle {
    CellStyle { wide: false, ..c.style }
}

fn look_of(c: &StyledCell) -> (r: CellStyle)
    ensures
        r == look(c@),
{
    let mut s = c.style();
    s.wide = false;
    s
}

/// The cells of a row from `k` on, from column `col` on, in a view of `vcols` columns. A code
/// for the style stands where it changes. A wide cell that the edge cuts shows as a space.
pub open spec fn cells_text(
    cells: Seq<CellView>,
    k: int,
    col: int,
    cur: Option<CellStyle>,
    vcols: int,
) -> Seq<char>
    decreases cells.len() - k,
{
    if !(0 <= k < cells.len()) || col >= vcols {
        Seq::empty()
    } else {
        let c = cells[k];
        let w = if c.style.wide {
            2int
        } else {
            1int
        };
        if col + w > vcols {
            "\x1b[0m "@
        } else {
            (if cur == Some(look(c)) {
                Seq::empty()
            } else {
                sgr(look(c))
            }) + (if c.text.len() == 0 {
                " "@
            } else {
                c.text
            }) + cells_text(cells, k + 1, col + w, Some(look(c)), vcols)
        }
    }
}

/// A row: the line is cleared first, then its cells are written.
pub open spec fn row_text(r: int, cells: Seq<CellView>, vcols: int) -> Seq<char> {
    "\x1b["@ + dec((r + 1) as nat) + ";1H\x1b[0m\x1b[K"@ + cells_text(cells, 0, 0, None, vcols)
        + "\x1b[0m"@
}

fn is_look(cur: Option<CellStyle>, s: CellStyle) -> (r: bool)
    ensures
        r == (cur == Some(s)),
{
    match cur {
        Some(c) => c == s,
        None => false,
    }
}

fn paint_row(out: &mut String, r: usize, cells: &Vec<StyledCell>, vcols: u16)
    requires
        r < usize::MAX,
    ensures
        final(out)@ == old(out)@ + row_text(r as int, row_view(cells@), vcols as int),
{
    let ghost all = row_view(cells@);
    let mut t = String::new();
    let mut k: usize = 0;
    let mut col: u32 = 0;
    let mut cur: Option<CellStyle> = None;
    let mut open = true;
    assert(t@ + cells_text(all, 0, 0, None, vcols as int) =~= cells_text(
        all,
        0,
        0,
        None,
        vcols as int,
    ));
    while open && k < cells.len() && col < vcols as u32
        invariant
            k <= cells@.len(),
            all == row_view(cells@),
            col <= vcols,
            open ==> t@ + cells_text(all, k as int, col as int, cur, vcols as int) == cells_text(
                all,
                0,
                0,
                None,
                vcols as int,
            ),
            !open ==> t@ == cells_text(all, 0, 0, None, vcols as int),
        decreases cells@.len() - k + (if open { 1int } else { 0int }),
    {
        let c = &cells[k];
        let ghost before = t@;
        assert(all[k as int] == c@);
        let w: u32 = if c.wide {
            2
        } else {
            1
        };
        if col + w > vcols as u32 {
            t.append("\x1b[0m ");
            open = false;
        } else {
            let s = look_of(c);
            let ghost was = cur;
            if !is_look(cur, s) {
                t.append(sgr_text(&s).as_str());
                cur = Some(s);
            }
            if c.text.as_str().is_empty() {
                t.append(" ");
            } else {
                t.append(c.text.as_str());
            }
            assert(t@ + cells_text(all, k + 1, col + w, cur, vcols as int) =~= before + cells_text(
                all,
                k as int,
                col as int,
                was,
                vcols as int,
            ));
            col = col + w;
            k += 1;
        }
    }
    assert(t@ =~= cells_text(all, 0, 0, None, vcols as int));
    let mut line = String::from_str("\x1b[");
    push_dec(&mut line, r as u64 + 1);
    line.append(";1H\x1b[0m\x1b[K");
    line.append(t.as_str());
    line.append("\x1b[0m");
    out.append(line.as_str());
}

/// Whether a screen is larger than a view of columns and rows.
pub open spec fn is_cropped(g: GridView, view: (u16, u16)) -> bool {
    g.cols > view.0 || g.rows.len() > view.1
}

/// The rows of a view that show the screen: one less where the notice takes the last.
pub open spec fn content_rows(g: GridView, view: (u16, u16)) -> int {
    if is_cropped(g, view) && view.1 > 0 {
        view.1 - 1
    } else {
        view.1 as int
    }
}

/// The rows of the screen that are shown.
pub open spec fn shown_rows(g: GridView, view: (u16, u16)) -> int {
    if g.rows.len() < content_rows(g, view) {
        g.rows.len() as int
    } else {
        content_rows(g, view)
    }
}

/// The first `n` rows: all of them, or those that differ from `prev`.
pub open spec fn rows_text(prev: Option<GridView>, g: GridView, n: int, vcols: int) -> Seq<char>
    decreases n,
{
    if n <= 0 {
        Seq::empty()
    } else {
        rows_text(prev, g, n - 1, vcols) + (if prev matches Some(p) && p.rows[n - 1] == g.rows[n - 1] {
            Seq::empty()
        } else {
            row_text(n - 1, g.rows[n - 1], vcols)
        })
    }
}

/// The first `n` characters.
pub open spec fn cut(s: Seq<char>, n: int) -> Seq<char> {
    if s.len() > n {
        s.take(n)
    } else {
        s
    }
}

/// The notice for a view that is too small.
pub open spec fn status_text(g: GridView, view: (u16, u16)) -> Seq<char> {
    let n = if view.0 > 0 {
        view.0 - 1
    } else {
        0
    };
    "\x1b["@ + dec(view.1 as nat) + ";1H\x1b[K\x1b[7m"@ + cut(
        "session "@ + dec(g.cols as nat) + "x"@ + dec(g.rows.len()) + " — your terminal "@ + dec(
            view.0 as nat,
        ) + "x"@ + dec(view.1 as nat) + " — read-only, q quits"@,
        n,
    ) + "\x1b[0m"@
}

/// The cursor: put where it is and shown, where the view shows that place, else hidden.
pub open spec fn cursor_text(g: GridView, view: (u16, u16)) -> Seq<char> {
    match g.cursor {
        Some((r, c)) => if r < content_rows(g, view) && c < view.0 {
            "\x1b["@ + dec((r + 1) as nat) + ";"@ + dec((c + 1) as nat) + "H\x1b[?25h"@
        } else {
            "\x1b[?25l"@
        },
        None => "\x1b[?25l"@,
    }
}

/// A screen after `prev`, or after anything where there is none.
pub open spec fn screen_text(prev: Option<GridView>, g: GridView, view: (u16, u16)) -> Seq<char> {
    param_if(prev is None, "\x1b[2J\x1b[H"@) + rows_text(
        prev,
        g,
        shown_rows(g, view),
        view.0 as int,
    ) + param_if(prev is None && is_cropped(g, view), status_text(g, view)) + cursor_text(g, view)
}

/// The screen that was shown before, where only what changed since then need be written: it
/// was a screen of the same size.
pub open spec fn usable_prev(prev: Option<FrameView>, next: GridView) -> Option<GridView> {
    match prev {
        Some(FrameView::Screen(p)) => if p.cols == next.cols && p.rows.len() == next.rows.len() {
            Some(p)
        } else {
            None
        },
        _ => None,
    }
}

/// Text without what stands between angle brackets; `tag` says whether it begins inside.
pub open spec fn without_tags(s: Seq<char>, tag: bool) -> Seq<char>
    decreases s.len(),
{
    if s.len() == 0 {
        Seq::empty()
    } else if s[0] == '<' {
        without_tags(s.drop_first(), true)
    } else if s[0] == '>' {
        without_tags(s.drop_first(), false)
    } else if tag {
        without_tags(s.drop_first(), true)
    } else {
        seq![s[0]] + without_tags(s.drop_first(), false)
    }
}

/// HTML as plain text.
pub open spec fn plain_text(html: Seq<char>) -> Seq<char> {
    replaced(
        replaced(replaced(without_tags(html, false), "&lt;"@, "<"@), "&gt;"@, ">"@),
        "&amp;"@,
        "&"@,
    )
}

/// A notice in a terminal.
pub open spec fn banner_text(html: Seq<char>, view: (u16, u16)) -> Seq<char> {
    "\x1b[2J\x1b[H\x1b[0;31m"@ + cut(plain_text(html), view.0 as int) + "\x1b[0m\x1b[?25l"@
}

/// What a terminal of `view` columns and rows is sent to show the next frame.
pub open spec fn painted(prev: Option<FrameView>, next: FrameView, view: (u16, u16)) -> Seq<char> {
    match next {
        FrameView::Banner(html) => banner_text(html, view),
        FrameView::Screen(g) => screen_text(usable_prev(prev, g), g, view),
    }
}

fn same_row(a: &Vec<StyledCell>, b: &Vec<StyledCell>) -> (r: bool)
    ensures
        r == (row_view(a@) == row_view(b@)),
{
    if a.len() != b.len() {
        assert(row_view(a@).len() != row_view(b@).len());
        return false;
    }
    let mut i: usize = 0;
    while i < a.len()
        invariant
            a@.len() == b@.len(),
            i <= a@.len(),
            forall|j: int| 0 <= j < i ==> row_view(a@)[j] == row_view(b@)[j],
        decreases a@.len() - i,
    {
        if !a[i].same(&b[i]) {
            assert(row_view(a@)[i as int] != row_view(b@)[i as int]);
            return false;
        }
        i += 1;
    }
    assert(row_view(a@) =~= row_view(b@));
    true
}

fn push_cut(out: &mut String, s: &str, n: usize)
    ensures
        final(out)@ == old(out)@ + cut(s@, n as int),
{
    let cs = chars_of(s);
    let m: usize = if cs.len() > n {
        n
    } else {
        cs.len()
    };
    let part = slice_subrange(cs.as_slice(), 0, m);
    assert(part@ =~= cut(s@, n as int));
    push_chars(out, part);
}

fn push_status(out: &mut String, g: &Grid, view: (u16, u16))
    ensures
        final(out)@ == old(out)@ + status_text(g@, view),
{
    let mut text = String::from_str("session ");
    push_dec(&mut text, g.cols as u64);
    text.append("x");
    push_dec(&mut text, g.rows.len() as u64);
    text.append(" — your terminal ");
    push_dec(&mut text, view.0 as u64);
    text.append("x");
    push_dec(&mut text, view.1 as u64);
    text.append(" — read-only, q quits");
    let n: usize = if view.0 > 0 {
        view.0 as usize - 1
    } else {
        0
    };
    let mut line = String::from_str("\x1b[");
    push_dec(&mut line, view.1 as u64);
    line.append(";1H\x1b[K\x1b[7m");
    push_cut(&mut line, text.as_str(), n);
    line.append("\x1b[0m");
    out.append(line.as_str());
}

fn push_cursor(out: &mut String, g: &Grid, view: (u16, u16), rows: u16)
    requires
        rows == content_rows(g@, view),
    ensures
        final(out)@ == old(out)@ + cursor_text(g@, view),
{
    match g.cursor {
        Some((r, c)) => {
            if r < rows && c < view.0 {
                let mut t = String::from_str("\x1b[");
                push_dec(&mut t, r as u64 + 1);
                t.append(";");
                push_dec(&mut t, c as u64 + 1);
                t.append("H\x1b[?25h");
                out.append(t.as_str());
            } else {
                out.append("\x1b[?25l");
            }
        },
        None => out.append("\x1b[?25l"),
    }
}

spec fn grid_view(p: Option<&Grid>) -> Option<GridView> {
    match p {
        Some(g) => Some(g@),
        None => None,
    }
}

fn paint_screen(prev: Option<&Grid>, g: &Grid, view: (u16, u16)) -> (r: String)
    requires
        prev matches Some(p) ==> p.rows@.len() == g.rows@.len(),
    ensures
        r@ == screen_text(grid_view(prev), g@, view),
{
    let (vcols, vrows) = view;
    let cropped = g.cols > vcols || g.rows.len() > vrows as usize;
    let content: u16 = if cropped && vrows > 0 {
        vrows - 1
    } else {
        vrows
    };
    let shown: usize = if g.rows.len() < content as usize {
        g.rows.len()
    } else {
        content as usize
    };
    let full = prev.is_none();
    let mut out = String::new();
    push_if(&mut out, full, "\x1b[2J\x1b[H");
    let ghost head = out@;
    let ghost pv = grid_view(prev);
    let mut r: usize = 0;
    assert(out@ =~= head + rows_text(pv, g@, 0, vcols as int));
    while r < shown
        invariant
            r <= shown <= g.rows@.len(),
            shown <= 65535,
            pv == grid_view(prev),
            prev matches Some(p) ==> p.rows@.len() == g.rows@.len(),
            out@ == head + rows_text(pv, g@, r as int, vcols as int),
        decreases shown - r,
    {
        let same = match prev {
            Some(p) => {
                assert(p@.rows[r as int] == row_view(p.rows@[r as int]@));
                same_row(&p.rows[r], &g.rows[r])
            },
            None => false,
        };
        assert(g@.rows[r as int] == row_view(g.rows@[r as int]@));
        if !same {
            paint_row(&mut out, r, &g.rows[r], vcols);
        }
        r += 1;
        assert(out@ =~= head + rows_text(pv, g@, r as int, vcols as int));
    }
    let ghost before = out@;
    if full && cropped {
        push_status(&mut out, g, view);
    }
    assert(out@ =~= before + param_if(pv is None && is_cropped(g@, view), status_text(g@, view)));
    push_cursor(&mut out, g, view, content);
    out
}

/// HTML as plain text: without tags, and with the entities for `<`, `>` and `&` as such.
pub fn strip_html(html: &str) -> (r: String)
    ensures
        r@ == plain_text(html@),
{
    let cs = chars_of(html);
    let mut out = String::new();
    let mut tag = false;
    let mut i: usize = 0;
    assert(cs@.skip(0) =~= cs@);
    assert(out@ + without_tags(cs@, false) =~= without_tags(cs@, false));
    while i < cs.len()
        invariant
            i <= cs@.len(),
            out@ + without_tags(cs@.skip(i as int), tag) == without_tags(cs@, false),
        decreases cs@.len() - i,
    {
        let ghost rest = cs@.skip(i as int);
        let ghost before = out@;
        let ghost was = tag;
        assert(rest[0] == cs@[i as int]);
        assert(rest.drop_first() =~= cs@.skip(i + 1));
        let c = cs[i];
        if c == '<' {
            tag = true;
        } else if c == '>' {
            tag = false;
        } else if !tag {
            out.push(c);
        }
        assert(out@ + without_tags(cs@.skip(i + 1), tag) =~= before + without_tags(rest, was));
        i += 1;
    }
    assert(cs@.skip(i as int) =~= Seq::<char>::empty());
    assert(out@ =~= without_tags(cs@, false));
    proof {
        reveal_strlit("&lt;");
        reveal_strlit("&gt;");
        reveal_strlit("&amp;");
    }
    let a = replace_text(out.as_str(), "&lt;", "<");
    let b = replace_text(a.as_str(), "&gt;", ">");
    replace_text(b.as_str(), "&amp;", "&")
}

fn paint_banner(html: &str, view: (u16, u16)) -> (r: String)
    ensures
        r@ == banner_text(html@, view),
{
    let text = strip_html(html);
    let mut out = String::from_str("\x1b[2J\x1b[H\x1b[0;31m");
    push_cut(&mut out, text.as_str(), view.0 as usize);
    out.append("\x1b[0m\x1b[?25l");
    out
}

/// The model of an optional frame.
pub open spec fn frame_view(p: Option<&Frame>) -> Option<FrameView> {
    match p {
        Some(f) => Some(f@),
        None => None,
    }
}

/// What a terminal of `view` columns and rows is sent to show the next frame, after `prev`, or
/// after anything where there is none.
pub fn paint(prev: Option<&Frame>, next: &Frame, view: (u16, u16)) -> (r: String)
    ensures
        r@ == painted(frame_view(prev), next@, view),
{
    match next {
        Frame::Banner(html) => paint_banner(html.as_str(), view),
        Frame::Screen(g) => {
            let p: Option<&Grid> = match prev {
                Some(Frame::Screen(p)) => if p.cols == g.cols && p.rows.len() == g.rows.len() {
                    Some(p)
                } else {
                    None
                },
                _ => None,
            };
            assert(grid_view(p) == usable_prev(frame_view(prev), g@));
            paint_screen(p, g, view)
        },
    }
}

/// A screen that did not change is not painted again: only the cursor is put in its place.
pub proof fn law_unchanged_rows_stay(g: GridView, view: (u16, u16))
    ensures
        painted(Some(FrameView::Screen(g)), FrameView::Screen(g), view) == cursor_text(g, view),
{
    lemma_no_rows(g, shown_rows(g, view), view.0 as int);
    assert(screen_text(Some(g), g, view) =~= cursor_text(g, view));
}

proof fn lemma_no_rows(g: GridView, n: int, vcols: int)
    ensures
        rows_text(Some(g), g, n, vcols) == Seq::<char>::empty(),
    decreases n,
{
    if n > 0 {
        lemma_no_rows(g, n - 1, vcols);
        assert(rows_text(Some(g), g, n, vcols) =~= Seq::<char>::empty());
    }
}

// ---- a notice reads as it was written ----

/// A character in HTML, with some of the entities taken back.
spec fn half_escaped(c: char, lt: bool, gt: bool, amp: bool) -> Seq<char> {
    if c == '&' && !amp {
        "&amp;"@
    } else if c == '<' && !lt {
        "&lt;"@
    } else if c == '>' && !gt {
        "&gt;"@
    } else {
        seq![c]
    }
}

/// Text in HTML, with some of the entities taken back.
spec fn half(s: Seq<char>, lt: bool, gt: bool, amp: bool) -> Seq<char>
    decreases s.len(),
{
    if s.len() == 0 {
        Seq::empty()
    } else {
        half_escaped(s[0], lt, gt, amp) + half(s.drop_first(), lt, gt, amp)
    }
}

proof fn lemma_entities()
    ensures
        "&amp;"@ == seq!['&', 'a', 'm', 'p', ';'],
        "&lt;"@ == seq!['&', 'l', 't', ';'],
        "&gt;"@ == seq!['&', 'g', 't', ';'],
        "<"@ == seq!['<'],
        ">"@ == seq!['>'],
        "&"@ == seq!['&'],
{
    reveal_strlit("&amp;");
    reveal_strlit("&lt;");
    reveal_strlit("&gt;");
    reveal_strlit("<");
    reveal_strlit(">");
    reveal_strlit("&");
    assert("&amp;"@ =~= seq!['&', 'a', 'm', 'p', ';']);
    assert("&lt;"@ =~= seq!['&', 'l', 't', ';']);
    assert("&gt;"@ =~= seq!['&', 'g', 't', ';']);
    assert("<"@ =~= seq!['<']);
    assert(">"@ =~= seq!['>']);
    assert("&"@ =~= seq!['&']);
}

/// An entity that is not the pattern, or a plain character, stays.
proof fn lemma_piece_stays(x: Seq<char>, rest: Seq<char>, pat: Seq<char>)
    requires
        pat.len() >= 3,
        pat[0] == '&',
        x.len() >= 1,
        forall|i: int| 1 <= i < x.len() ==> #[trigger] x[i] != '&',
        x[0] != '&' || (x.len() >= 3 && (x[1] != pat[1] || x[2] != pat[2])),
    ensures
        forall|i: int| 0 <= i < x.len() ==> !begins(#[trigger] (x + rest).skip(i), pat),
{
    let t = x + rest;
    assert forall|i: int| 0 <= i < x.len() implies !begins(#[trigger] t.skip(i), pat) by {
        let u = t.skip(i);
        if begins(u, pat) {
            assert(u.take(pat.len() as int)[0] == pat[0]);
            assert(u[0] == x[i]);
            if i > 0 {
                assert(x[i] != '&');
            } else {
                assert(u.take(pat.len() as int)[1] == pat[1]);
                assert(u.take(pat.len() as int)[2] == pat[2]);
                assert(u[1] == t[1] && u[2] == t[2]);
            }
        }
    }
}

proof fn lemma_unescape_lt(s: Seq<char>)
    ensures
        replaced(half(s, false, false, false), "&lt;"@, "<"@) == half(s, true, false, false),
    decreases s.len(),
{
    lemma_entities();
    if s.len() > 0 {
        let x = half_escaped(s[0], false, false, false);
        let rest = half(s.drop_first(), false, false, false);
        lemma_unescape_lt(s.drop_first());
        if s[0] == '<' {
            crate::text::lemma_replaced_at_start(rest, "&lt;"@, "<"@);
        } else {
            lemma_piece_stays(x, rest, "&lt;"@);
            crate::text::lemma_replaced_keeps(x, rest, "&lt;"@, "<"@);
        }
    }
}

proof fn lemma_unescape_gt(s: Seq<char>)
    ensures
        replaced(half(s, true, false, false), "&gt;"@, ">"@) == half(s, true, true, false),
    decreases s.len(),
{
    lemma_entities();
    if s.len() > 0 {
        let x = half_escaped(s[0], true, false, false);
        let rest = half(s.drop_first(), true, false, false);
        lemma_unescape_gt(s.drop_first());
        if s[0] == '>' {
            crate::text::lemma_replaced_at_start(rest, "&gt;"@, ">"@);
        } else {
            lemma_piece_stays(x, rest, "&gt;"@);
            crate::text::lemma_replaced_keeps(x, rest, "&gt;"@, ">"@);
        }
    }
}

proof fn lemma_unescape_amp(s: Seq<char>)
    ensures
        replaced(half(s, true, true, false), "&amp;"@, "&"@) == half(s, true, true, true),
    decreases s.len(),
{
    lemma_entities();
    if s.len() > 0 {
        let x = half_escaped(s[0], true, true, false);
        let rest = half(s.drop_first(), true, true, false);
        lemma_unescape_amp(s.drop_first());
        if s[0] == '&' {
            crate::text::lemma_replaced_at_start(rest, "&amp;"@, "&"@);
        } else {
            lemma_piece_stays(x, rest, "&amp;"@);
            crate::text::lemma_replaced_keeps(x, rest, "&amp;"@, "&"@);
        }
    }
}

proof fn lemma_half_all(s: Seq<char>)
    ensures
        half(s, true, true, true) == s,
    decreases s.len(),
{
    if s.len() > 0 {
        lemma_half_all(s.drop_first());
        assert(seq![s[0]] + s.drop_first() =~= s);
    } else {
        assert(s =~= Seq::<char>::empty());
    }
}

proof fn lemma_half_concat(a: Seq<char>, b: Seq<char>)
    ensures
        half(a + b, false, false, false) == half(a, false, false, false) + half(
            b,
            false,
            false,
            false,
        ),
    decreases a.len(),
{
    if a.len() == 0 {
        assert(a + b =~= b);
        assert(half(a, false, false, false) + half(b, false, false, false) =~= half(
            b,
            false,
            false,
            false,
        ));
    } else {
        assert((a + b).drop_first() =~= a.drop_first() + b);
        lemma_half_concat(a.drop_first(), b);
        assert(half(a + b, false, false, false) =~= half(a, false, false, false) + half(
            b,
            false,
            false,
            false,
        ));
    }
}

proof fn lemma_html_escaped_is_half(s: Seq<char>)
    ensures
        html_escaped(s) == half(s, false, false, false),
    decreases s.len(),
{
    if s.len() > 0 {
        let p = s.drop_last();
        let l = seq![s.last()];
        lemma_html_escaped_is_half(p);
        lemma_half_concat(p, l);
        assert(p + l =~= s);
        assert(l.drop_first() =~= Seq::<char>::empty());
        assert(half(l.drop_first(), false, false, false) =~= Seq::<char>::empty());
        assert(half(l, false, false, false) =~= html_char(s.last()));
    }
}

proof fn lemma_no_brackets_in_half(s: Seq<char>)
    ensures
        !half(s, false, false, false).contains('<'),
        !half(s, false, false, false).contains('>'),
    decreases s.len(),
{
    lemma_entities();
    if s.len() > 0 {
        lemma_no_brackets_in_half(s.drop_first());
        let x = half_escaped(s[0], false, false, false);
        let rest = half(s.drop_first(), false, false, false);
        let t = x + rest;
        assert forall|i: int| 0 <= i < t.len() implies t[i] != '<' && t[i] != '>' by {
            if i >= x.len() {
                assert(t[i] == rest[i - x.len()]);
                assert(rest.contains(rest[i - x.len()]));
            }
        }
    }
}

proof fn lemma_tags_outside(a: Seq<char>, b: Seq<char>)
    requires
        !a.contains('<'),
        !a.contains('>'),
    ensures
        without_tags(a + b, false) == a + without_tags(b, false),
    decreases a.len(),
{
    if a.len() == 0 {
        assert(a + b =~= b);
        assert(a + without_tags(b, false) =~= without_tags(b, false));
    } else {
        assert(a.contains(a[0]));
        let t = a.drop_first();
        assert((a + b).drop_first() =~= t + b);
        assert forall|c: char| t.contains(c) implies a.contains(c) by {
            let i = choose|i: int| 0 <= i < t.len() && t[i] == c;
            assert(a[i + 1] == c);
        }
        assert(t.contains('<') ==> a.contains('<'));
        assert(t.contains('>') ==> a.contains('>'));
        lemma_tags_outside(t, b);
        assert(without_tags(a + b, false) =~= a + without_tags(b, false));
    }
}

proof fn lemma_tags_inside(a: Seq<char>, b: Seq<char>)
    requires
        !a.contains('>'),
    ensures
        without_tags(a + b, true) == without_tags(b, true),
    decreases a.len(),
{
    if a.len() == 0 {
        assert(a + b =~= b);
    } else {
        assert(a.contains(a[0]));
        let t = a.drop_first();
        assert((a + b).drop_first() =~= t + b);
        assert(t.contains('>') ==> a.contains('>')) by {
            if t.contains('>') {
                let i = choose|i: int| 0 <= i < t.len() && t[i] == '>';
                assert(a[i + 1] == '>');
            }
        }
        lemma_tags_inside(t, b);
    }
}

/// A notice reads in a terminal as it was written, whatever it holds.
pub proof fn law_notice_reads_as_written(msg: Seq<char>)
    ensures
        plain_text(banner_html(msg)) == "shellglass: "@ + msg,
{
    reveal_strlit("<div style=\"color:#ff6b6b;font-family:monospace;padding:8px;\">shellglass: ");
    reveal_strlit("</div>");
    reveal_strlit("shellglass: ");
    let open = "<div style=\"color:#ff6b6b;font-family:monospace;padding:8px;\">shellglass: "@;
    let close = "</div>"@;
    let name = "shellglass: "@;
    let n = open.len() - name.len();
    let tag = open.subrange(1, n - 1);
    let body = html_escaped(msg);
    let html = banner_html(msg);
    assert(open.skip(n) =~= name);
    assert(open[0] == '<');
    assert(open[n - 1] == '>');
    assert(!tag.contains('>'));
    // The opening tag is left out.
    let after = name + body + close;
    assert(html =~= seq!['<'] + (tag + (seq!['>'] + after)));
    assert(html.drop_first() =~= tag + (seq!['>'] + after));
    lemma_tags_inside(tag, seq!['>'] + after);
    assert((seq!['>'] + after).drop_first() =~= after);
    assert(without_tags(html, false) == without_tags(after, false));
    // The name and the message stay.
    lemma_html_escaped_is_half(msg);
    lemma_no_brackets_in_half(msg);
    assert(!name.contains('<') && !name.contains('>'));
    lemma_tags_outside(name, body + close);
    assert(after =~= name + (body + close));
    lemma_tags_outside(body, close);
    // The closing tag is left out.
    let inner = close.subrange(1, 5);
    let end = seq!['>'];
    assert(close =~= seq!['<'] + (inner + end));
    assert(close.drop_first() =~= inner + end);
    assert(!inner.contains('>'));
    lemma_tags_inside(inner, end);
    assert(end.drop_first() =~= Seq::<char>::empty());
    assert(without_tags(end.drop_first(), false) =~= Seq::<char>::empty());
    assert(without_tags(close, false) =~= Seq::<char>::empty());
    let text = without_tags(html, false);
    assert(text =~= name + body);
    // The entities are taken back.
    let whole = name + msg;
    lemma_half_concat(name, msg);
    lemma_half_plain(name);
    assert(text == half(whole, false, false, false));
    lemma_unescape_lt(whole);
    lemma_unescape_gt(whole);
    lemma_unescape_amp(whole);
    lemma_half_all(whole);
}

proof fn lemma_half_plain(s: Seq<char>)
    requires
        !s.contains('<'),
        !s.contains('>'),
        !s.contains('&'),
    ensures
        half(s, false, false, false) == s,
    decreases s.len(),
{
    if s.len() > 0 {
        let t = s.drop_first();
        assert(s.contains(s[0]));
        assert forall|c: char| t.contains(c) implies s.contains(c) by {
            let i = choose|i: int| 0 <= i < t.len() && t[i] == c;
            assert(s[i + 1] == c);
        }
        assert(t.contains('<') ==> s.contains('<'));
        assert(t.contains('>') ==> s.contains('>'));
        assert(t.contains('&') ==> s.contains('&'));
        lemma_half_plain(t);
        assert(seq![s[0]] + t =~= s);
    } else {
        assert(s =~= Seq::<char>::empty());
    }
}

} // verus!
