//! What the colours and texts of a page are, whatever way they are made.
use crate::model::{CellView, Color};
use crate::render::{
    cell_bg, cell_fg, css_escaped, css_char, html_char, html_escaped, palette_color, DEFAULT_BG,
    DEFAULT_FG,
};
use vstd::prelude::*;

verus! {

/// The six levels of the colour cube.
pub open spec fn levels() -> Seq<u8> {
    seq![0u8, 95, 135, 175, 215, 255]
}

/// The colour of the index `16 + 36 r + 6 g + b` has the red level `r`, the green level `g` and
/// the blue level `b`.
pub proof fn law_cube_has_six_levels_each(i: u8, r: int, g: int, b: int)
    requires
        0 <= r < 6,
        0 <= g < 6,
        0 <= b < 6,
        i == 16 + 36 * r + 6 * g + b,
    ensures
        palette_color(i) == (levels()[r], levels()[g], levels()[b]),
{
}

/// The last twenty-four colours are greys, each lighter than the one before by ten.
pub proof fn law_greys_rise_evenly(i: u8)
    requires
        i >= 232,
    ensures
        palette_color(i).0 == palette_color(i).1 == palette_color(i).2,
        palette_color(232).0 == 8,
        i > 232 ==> palette_color(i).0 == palette_color((i - 1) as u8).0 + 10,
{
}

/// Whether index `i` has the bit of weight `w`.
pub open spec fn has_bit(i: u8, w: int) -> bool {
    i as int / w % 2 == 1
}

/// Of the named colours, red is in those with an odd index, green in those with a two in it,
/// blue in those with a four; an eight makes them bright.
pub proof fn law_named_colours_mix_red_green_and_blue(i: u8)
    requires
        i < 16,
    ensures
        i < 7 ==> {
            &&& palette_color(i).0 > 0 <==> has_bit(i, 1)
            &&& palette_color(i).1 > 0 <==> has_bit(i, 2)
            &&& palette_color(i).2 > 0 <==> has_bit(i, 4)
        },
        i > 8 ==> {
            &&& palette_color(i).0 == 255 <==> has_bit(i, 1)
            &&& palette_color(i).1 == 255 <==> has_bit(i, 2)
            &&& palette_color(i).2 == 255 <==> has_bit(i, 4)
        },
        i == 7 || i == 8 ==> palette_color(i).0 == palette_color(i).1 == palette_color(i).2,
        palette_color(0).0 < palette_color(8).0 < palette_color(7).0 < palette_color(15).0,
        i < 8 ==> {
            let (c, d) = (palette_color(i), palette_color((i + 8) as u8));
            c.0 <= d.0 && c.1 <= d.1 && c.2 <= d.2
        },
{
    assert(palette_color(0) == (0u8, 0u8, 0u8));
    assert(palette_color(1) == (0xcdu8, 0u8, 0u8));
    assert(palette_color(2) == (0u8, 0xcdu8, 0u8));
    assert(palette_color(3) == (0xcdu8, 0xcdu8, 0u8));
    assert(palette_color(4) == (0u8, 0u8, 0xeeu8));
    assert(palette_color(5) == (0xcdu8, 0u8, 0xcdu8));
    assert(palette_color(6) == (0u8, 0xcdu8, 0xcdu8));
    assert(palette_color(7) == (0xe5u8, 0xe5u8, 0xe5u8));
    assert(palette_color(8) == (0x7fu8, 0x7fu8, 0x7fu8));
    assert(palette_color(9) == (0xffu8, 0u8, 0u8));
    assert(palette_color(10) == (0u8, 0xffu8, 0u8));
    assert(palette_color(11) == (0xffu8, 0xffu8, 0u8));
    assert(palette_color(12) == (0x5cu8, 0x5cu8, 0xffu8));
    assert(palette_color(13) == (0xffu8, 0u8, 0xffu8));
    assert(palette_color(14) == (0u8, 0xffu8, 0xffu8));
    assert(palette_color(15) == (0xffu8, 0xffu8, 0xffu8));
}

/// The colour that a cell's text or background has, the default being `d`.
pub open spec fn seen(c: Option<(u8, u8, u8)>, d: (u8, u8, u8)) -> (u8, u8, u8) {
    match c {
        Some(x) => x,
        None => d,
    }
}

/// Reverse video swaps the colours of a cell that is not dim, and the cursor swaps them too: a
/// cell in reverse video under the cursor looks as without either.
pub proof fn law_reverse_video_and_the_cursor_swap_colours(c: CellView, cursor: bool)
    requires
        !c.style.dim,
    ensures
        ({
            let d = CellView { style: (crate::model::CellStyle { inverse: !c.style.inverse, ..c.style }), ..c };
            &&& seen(cell_fg(d, cursor), DEFAULT_FG) == seen(cell_bg(c, cursor), DEFAULT_BG)
            &&& seen(cell_bg(d, cursor), DEFAULT_BG) == seen(cell_fg(c, cursor), DEFAULT_FG)
            &&& cell_fg(d, !cursor) == cell_fg(c, cursor)
            &&& cell_bg(d, !cursor) == cell_bg(c, cursor)
        }),
{
}

/// A plain cell that is not under the cursor has the colours that it is given; a default
/// colour leaves the page's own.
pub proof fn law_cells_have_their_colours(c: CellView, r: u8, g: u8, b: u8)
    requires
        !c.style.dim,
        !c.style.inverse,
    ensures
        c.style.fg == Color::Rgb(r, g, b) ==> cell_fg(c, false) == Some((r, g, b)),
        c.style.bg == Color::Rgb(r, g, b) ==> cell_bg(c, false) == Some((r, g, b)),
        c.style.fg == Color::Default ==> cell_fg(c, false) is None,
        c.style.bg == Color::Default ==> cell_bg(c, false) is None,
{
}

/// Dim text has the hue of the same text when it is not dim, at six tenths at most of each part
/// and less by no more than six; the background stays.
pub proof fn law_dim_text_is_darker(c: CellView, cursor: bool)
    requires
        !c.style.dim,
    ensures
        ({
            let d = CellView { style: (crate::model::CellStyle { dim: true, ..c.style }), ..c };
            let (x, y) = (seen(cell_fg(c, cursor), DEFAULT_FG), seen(cell_fg(d, cursor), DEFAULT_FG));
            &&& cell_bg(d, cursor) == cell_bg(c, cursor)
            &&& 6 * x.0 - 60 < 10 * y.0 <= 6 * x.0
            &&& 6 * x.1 - 60 < 10 * y.1 <= 6 * x.1
            &&& 6 * x.2 - 60 < 10 * y.2 <= 6 * x.2
        }),
{
}

/// Reading HTML text: `&amp;`, `&lt;` and `&gt;` are the characters that they name, other
/// characters are themselves.
pub open spec fn html_read(s: Seq<char>) -> Seq<char>
    decreases s.len(),
{
    if s.len() == 0 {
        Seq::empty()
    } else if s.len() >= 5 && s.take(5) == seq!['&', 'a', 'm', 'p', ';'] {
        seq!['&'] + html_read(s.skip(5))
    } else if s.len() >= 4 && s.take(4) == seq!['&', 'l', 't', ';'] {
        seq!['<'] + html_read(s.skip(4))
    } else if s.len() >= 4 && s.take(4) == seq!['&', 'g', 't', ';'] {
        seq!['>'] + html_read(s.skip(4))
    } else {
        seq![s[0]] + html_read(s.skip(1))
    }
}

proof fn lemma_html_first(s: Seq<char>)
    requires
        s.len() > 0,
    ensures
        html_escaped(s) == html_char(s[0]) + html_escaped(s.skip(1)),
    decreases s.len(),
{
    if s.len() > 1 {
        lemma_html_first(s.drop_last());
        assert(s.drop_last().skip(1) =~= s.skip(1).drop_last());
        assert(s.skip(1).last() == s.last());
        assert(html_escaped(s) =~= html_char(s[0]) + html_escaped(s.skip(1)));
    } else {
        assert(s.drop_last() =~= Seq::empty());
        assert(s.skip(1) =~= Seq::empty());
        assert(html_escaped(s) =~= html_char(s[0]) + html_escaped(s.skip(1)));
    }
}

/// Text on a page reads as it is, and opens no element.
pub proof fn law_escaped_text_reads_back(s: Seq<char>)
    ensures
        html_read(html_escaped(s)) == s,
        !html_escaped(s).contains('<'),
        !html_escaped(s).contains('>'),
    decreases s.len(),
{
    reveal_strlit("&amp;");
    reveal_strlit("&lt;");
    reveal_strlit("&gt;");
    if s.len() > 0 {
        let c = s[0];
        let t = html_escaped(s.skip(1));
        lemma_html_first(s);
        law_escaped_text_reads_back(s.skip(1));
        let u = html_char(c) + t;
        assert(html_char(c).len() == (if c == '&' { 5int } else if c == '<' || c == '>' { 4int } else { 1int }));
        assert(u.skip(html_char(c).len() as int) =~= t);
        assert(u.take(html_char(c).len() as int) =~= html_char(c));
        if c == '&' {
            assert(html_char(c) =~= seq!['&', 'a', 'm', 'p', ';']);
            assert(html_read(u) == seq!['&'] + html_read(u.skip(5)));
        } else if c == '<' {
            assert(html_char(c) =~= seq!['&', 'l', 't', ';']);
            assert(u[1] == 'l');
            assert(html_read(u) == seq!['<'] + html_read(u.skip(4)));
        } else if c == '>' {
            assert(html_char(c) =~= seq!['&', 'g', 't', ';']);
            assert(u[1] == 'g');
            assert(html_read(u) == seq!['>'] + html_read(u.skip(4)));
        } else {
            assert(u[0] == c);
            assert(html_read(u) == seq![u[0]] + html_read(u.skip(1)));
        }
        assert(s =~= seq![c] + s.skip(1));
        assert forall|i: int| 0 <= i < u.len() implies u[i] != '<' && u[i] != '>' by {
            if i >= html_char(c).len() {
                assert(u[i] == t[i - html_char(c).len()]);
                assert(t.contains(t[i - html_char(c).len()]));
            }
        }
    }
}

/// Reading a single-quoted CSS string: a backslash takes the character behind it as it is.
pub open spec fn css_read(s: Seq<char>) -> Seq<char>
    decreases s.len(),
{
    if s.len() == 0 {
        Seq::empty()
    } else if s[0] == '\\' && s.len() >= 2 {
        seq![s[1]] + css_read(s.skip(2))
    } else {
        seq![s[0]] + css_read(s.skip(1))
    }
}

/// The place of the quote that ends a CSS string.
pub open spec fn css_end(s: Seq<char>) -> int
    decreases s.len(),
{
    if s.len() == 0 || s[0] == '\'' {
        0
    } else if s[0] == '\\' && s.len() >= 2 {
        2 + css_end(s.skip(2))
    } else {
        1 + css_end(s.skip(1))
    }
}

proof fn lemma_css_first(s: Seq<char>)
    requires
        s.len() > 0,
    ensures
        css_escaped(s) == css_char(s[0]) + css_escaped(s.skip(1)),
    decreases s.len(),
{
    if s.len() > 1 {
        lemma_css_first(s.drop_last());
        assert(s.drop_last().skip(1) =~= s.skip(1).drop_last());
        assert(s.skip(1).last() == s.last());
        assert(css_escaped(s) =~= css_char(s[0]) + css_escaped(s.skip(1)));
    } else {
        assert(s.drop_last() =~= Seq::empty());
        assert(s.skip(1) =~= Seq::empty());
        assert(css_escaped(s) =~= css_char(s[0]) + css_escaped(s.skip(1)));
    }
}

/// A family's name in a CSS string reads as it is, and the string ends behind it, whatever
/// follows its quote.
pub proof fn law_quoted_name_reads_back(s: Seq<char>, more: Seq<char>)
    ensures
        css_read(css_escaped(s)) == s,
        css_end(css_escaped(s) + "'"@ + more) == css_escaped(s).len(),
    decreases s.len(),
{
    reveal_strlit("\\\\");
    reveal_strlit("\\'");
    reveal_strlit("'");
    if s.len() > 0 {
        let c = s[0];
        let t = css_escaped(s.skip(1));
        lemma_css_first(s);
        law_quoted_name_reads_back(s.skip(1), more);
        let u = css_char(c) + t;
        let w = u + "'"@ + more;
        let k = css_char(c).len() as int;
        assert(k == (if c == '\\' || c == '\'' { 2int } else { 1int }));
        assert(u.skip(k) =~= t);
        assert(w.skip(k) =~= t + "'"@ + more);
        assert(u[0] == css_char(c)[0] && w[0] == u[0]);
        if k == 2 {
            assert(u[1] == css_char(c)[1]);
            assert(css_read(u) == seq![u[1]] + css_read(u.skip(2)));
            assert(css_end(w) == 2 + css_end(w.skip(2)));
        } else {
            assert(css_read(u) == seq![u[0]] + css_read(u.skip(1)));
            assert(css_end(w) == 1 + css_end(w.skip(1)));
        }
        assert(s =~= seq![c] + s.skip(1));
    } else {
        assert((css_escaped(s) + "'"@ + more)[0] == '\'');
    }
}

} // verus!
