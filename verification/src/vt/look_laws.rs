//! What the numbers of a style sequence do to the look of text.
use crate::model::{CellStyle, Color};
use crate::parse::styled_cell;
use crate::vt::attrs::{Attrs, TEXT_MODE_BLINK, TEXT_MODE_CONCEALED};
use crate::vt::parser::{played, EventView};
use crate::vt::row::Glyph;
use crate::vt::screen::ScreenState;
use crate::vt::sgr::{one_sgr, sgr, sgr_from, takes_color};
use crate::vt::sgr_laws::{
    lemma_one_keeps_proper, lemma_read_index, lemma_read_one, lemma_read_rgb, lemma_underline_bits,
    plain, proper,
};
use vstd::prelude::*;

verus! {

/// How text with these attributes looks.
pub open spec fn look_of(a: Attrs) -> CellStyle {
    styled_cell(
        Glyph { text: Seq::empty(), attrs: a, wide: false, continuation: false, data: None },
    ).style
}

/// Whether text with these attributes blinks.
pub open spec fn blinks(a: Attrs) -> bool {
    a.mode & TEXT_MODE_BLINK != 0
}

/// Whether text with these attributes is concealed.
pub open spec fn conceals(a: Attrs) -> bool {
    a.mode & TEXT_MODE_CONCEALED != 0
}

/// The look that a number makes of a look: 0 is plain, 1 bold, 2 dim, 3 italic, 4 underlined, 7
/// reversed, 9 struck, 21 underlined twice; 22 to 24, 27 and 29 take it back; from 30 on are the
/// colours of the text, from 40 on of the background, from 90 and 100 on the bright ones; 39, 49
/// and 59 are the default colours. Other numbers leave the look.
pub open spec fn look_after(s: CellStyle, n: u16) -> CellStyle {
    match n {
        0 => CellStyle { wide: s.wide, ..crate::model::plain_style() },
        1 => CellStyle { bold: true, dim: false, ..s },
        2 => CellStyle { bold: false, dim: true, ..s },
        3 => CellStyle { italic: true, ..s },
        4 => CellStyle { underline: 1, ..s },
        7 => CellStyle { inverse: true, ..s },
        9 => CellStyle { strike: true, ..s },
        21 => CellStyle { underline: 2, ..s },
        22 => CellStyle { bold: false, dim: false, ..s },
        23 => CellStyle { italic: false, ..s },
        24 => CellStyle { underline: 0, ..s },
        27 => CellStyle { inverse: false, ..s },
        29 => CellStyle { strike: false, ..s },
        39 => CellStyle { fg: Color::Default, ..s },
        49 => CellStyle { bg: Color::Default, ..s },
        59 => CellStyle { ulcolor: Color::Default, ..s },
        _ => if 30 <= n <= 37 {
            CellStyle { fg: Color::Idx((n - 30) as u8), ..s }
        } else if 40 <= n <= 47 {
            CellStyle { bg: Color::Idx((n - 40) as u8), ..s }
        } else if 90 <= n <= 97 {
            CellStyle { fg: Color::Idx((8 + (n - 90)) as u8), ..s }
        } else if 100 <= n <= 107 {
            CellStyle { bg: Color::Idx((8 + (n - 100)) as u8), ..s }
        } else {
            s
        },
    }
}

proof fn lemma_masks()
    by (bit_vector)
    ensures
        0u16 & 0x1 == 0,
        0u16 & 0x2 == 0,
        0u16 & 0x4 == 0,
        0u16 & 0x8 == 0,
        0u16 & 0x10 == 0,
        0u16 & 0x100 == 0,
        0u16 & 0x200 == 0,
        (0u16 & 0xe0) >> 5 == 0,
        1u16 & 0x1 == 1,
        1u16 & 0x2 == 0,
        2u16 & 0x1 == 0,
        2u16 & 0x2 == 2,
        forall|v: u16| v <= 2 ==> #[trigger] (v & !0x3u16) == 0,
        forall|v: u16, k: u16| #![trigger v & !k] v == 0 || v == k ==> v & !k == 0,
        forall|v: u16| #[trigger] (((v << 5) & 0xe0) & !0xe0u16) == 0,
{
}

proof fn lemma_apart(m: u16, mask: u16, v: u16)
    by (bit_vector)
    requires
        v & !mask == 0,
    ensures
        mask & 0x1 == 0 ==> ((m & !mask) | v) & 0x1 == m & 0x1,
        mask & 0x2 == 0 ==> ((m & !mask) | v) & 0x2 == m & 0x2,
        mask & 0x4 == 0 ==> ((m & !mask) | v) & 0x4 == m & 0x4,
        mask & 0x8 == 0 ==> ((m & !mask) | v) & 0x8 == m & 0x8,
        mask & 0x10 == 0 ==> ((m & !mask) | v) & 0x10 == m & 0x10,
        mask & 0xe0 == 0 ==> ((m & !mask) | v) & 0xe0 == m & 0xe0,
        mask & 0x100 == 0 ==> ((m & !mask) | v) & 0x100 == m & 0x100,
        mask & 0x200 == 0 ==> ((m & !mask) | v) & 0x200 == m & 0x200,
        mask == 0x3 ==> ((m & !mask) | v) & 0x1 == v & 0x1 && ((m & !mask) | v) & 0x2 == v & 0x2,
        ((m & !mask) | v) & mask == v,
{
}

proof fn lemma_mask_pairs()
    by (bit_vector)
    ensures
        0x3u16 & 0x4 == 0 && 0x3u16 & 0x8 == 0 && 0x3u16 & 0x10 == 0 && 0x3u16 & 0xe0 == 0 && 0x3u16
            & 0x100 == 0 && 0x3u16 & 0x200 == 0,
        0x4u16 & 0x1 == 0 && 0x4u16 & 0x2 == 0 && 0x4u16 & 0x8 == 0 && 0x4u16 & 0x10 == 0 && 0x4u16
            & 0xe0 == 0 && 0x4u16 & 0x100 == 0 && 0x4u16 & 0x200 == 0,
        0x8u16 & 0x1 == 0 && 0x8u16 & 0x2 == 0 && 0x8u16 & 0x4 == 0 && 0x8u16 & 0x10 == 0 && 0x8u16
            & 0xe0 == 0 && 0x8u16 & 0x100 == 0 && 0x8u16 & 0x200 == 0,
        0x10u16 & 0x1 == 0 && 0x10u16 & 0x2 == 0 && 0x10u16 & 0x4 == 0 && 0x10u16 & 0x8 == 0
            && 0x10u16 & 0xe0 == 0 && 0x10u16 & 0x100 == 0 && 0x10u16 & 0x200 == 0,
        0xe0u16 & 0x1 == 0 && 0xe0u16 & 0x2 == 0 && 0xe0u16 & 0x4 == 0 && 0xe0u16 & 0x8 == 0
            && 0xe0u16 & 0x10 == 0 && 0xe0u16 & 0x100 == 0 && 0xe0u16 & 0x200 == 0,
        0x100u16 & 0x1 == 0 && 0x100u16 & 0x2 == 0 && 0x100u16 & 0x4 == 0 && 0x100u16 & 0x8 == 0
            && 0x100u16 & 0x10 == 0 && 0x100u16 & 0xe0 == 0 && 0x100u16 & 0x200 == 0,
        0x200u16 & 0x1 == 0 && 0x200u16 & 0x2 == 0 && 0x200u16 & 0x4 == 0 && 0x200u16 & 0x8 == 0
            && 0x200u16 & 0x10 == 0 && 0x200u16 & 0xe0 == 0 && 0x200u16 & 0x100 == 0,
{
}

/// Each number of a style sequence does to the look of text what it stands for, 5 and 6 make it
/// blink, 8 conceals it, 25 and 28 take that back; the other two are left by all but 0.
pub proof fn law_numbers_have_their_meanings(a: Attrs, n: u16)
    requires
        proper(a),
        !takes_color(n),
    ensures
        ({
            let b = match one_sgr(a, plain(n)) {
                Some(b) => b,
                None => a,
            };
            &&& look_of(b) == look_after(look_of(a), n)
            &&& proper(b)
            &&& b.link == a.link
            &&& blinks(b) == (if n == 0 || n == 25 {
                false
            } else {
                n == 5 || n == 6 || blinks(a)
            })
            &&& conceals(b) == (if n == 0 || n == 28 {
                false
            } else {
                n == 8 || conceals(a)
            })
        }),
{
    let m = a.mode;
    lemma_masks();
    lemma_mask_pairs();
    lemma_one_keeps_proper(a, plain(n));
    if n == 1 || n == 2 || n == 22 {
        lemma_apart(m, 0x3, 0);
        lemma_apart(m, 0x3, 1);
        lemma_apart(m, 0x3, 2);
    } else if n == 3 || n == 23 {
        lemma_apart(m, 0x4, 0x4);
        lemma_apart(m, 0x4, 0);
    } else if n == 7 || n == 27 {
        lemma_apart(m, crate::vt::attrs::TEXT_MODE_INVERSE, crate::vt::attrs::TEXT_MODE_INVERSE);
        lemma_apart(m, crate::vt::attrs::TEXT_MODE_INVERSE, 0);
    } else if n == 9 || n == 29 {
        lemma_apart(
            m,
            crate::vt::attrs::TEXT_MODE_STRIKETHROUGH,
            crate::vt::attrs::TEXT_MODE_STRIKETHROUGH,
        );
        lemma_apart(m, crate::vt::attrs::TEXT_MODE_STRIKETHROUGH, 0);
    } else if n == 5 || n == 6 || n == 25 {
        lemma_apart(m, TEXT_MODE_BLINK, TEXT_MODE_BLINK);
        lemma_apart(m, TEXT_MODE_BLINK, 0);
    } else if n == 8 || n == 28 {
        lemma_apart(m, TEXT_MODE_CONCEALED, TEXT_MODE_CONCEALED);
        lemma_apart(m, TEXT_MODE_CONCEALED, 0);
    } else if n == 4 || n == 21 || n == 24 {
        lemma_apart(m, 0xe0, (0u16 << 5) & 0xe0);
        lemma_apart(m, 0xe0, (1u16 << 5) & 0xe0);
        lemma_apart(m, 0xe0, (2u16 << 5) & 0xe0);
        lemma_underline_bits(m, 0);
        lemma_underline_bits(m, 1);
        lemma_underline_bits(m, 2);
    }
}

/// `4` with a part underlines in that style.
pub proof fn law_underline_styles(a: Attrs, style: u16)
    requires
        proper(a),
        style <= 5,
    ensures
        one_sgr(a, seq![4, style]) matches Some(b) && look_of(b) == (CellStyle {
            underline: style as u8,
            ..look_of(a)
        }) && proper(b) && b.link == a.link && blinks(b) == blinks(a) && conceals(b) == conceals(a),
{
    lemma_masks();
    lemma_mask_pairs();
    lemma_one_keeps_proper(a, seq![4, style]);
    lemma_apart(a.mode, 0xe0, (style << 5) & 0xe0);
    lemma_underline_bits(a.mode, style);
}

/// A style with the colour that a number stands for: 38 of the text, 48 of the background, 58 of
/// the underline.
pub open spec fn coloured(s: CellStyle, which: u16, c: Color) -> CellStyle {
    if which == 38 {
        CellStyle { fg: c, ..s }
    } else if which == 48 {
        CellStyle { bg: c, ..s }
    } else {
        CellStyle { ulcolor: c, ..s }
    }
}

/// `38`, `48` and `58` with `5` and an index, or with `2` and red, green and blue, set the
/// colour of the text, of the background and of the underline, in parameters or in parts of one;
/// nothing else changes, and the parameters behind are read on.
pub proof fn law_extended_colours(a: Attrs, which: u16, r: u8, g: u8, b: u8, rest: Seq<Seq<u16>>)
    requires
        takes_color(which),
        proper(a),
    ensures
        which == 38 || which == 48 || which == 58,
        exists|x: Attrs|
            #![trigger look_of(x)]
            {
                &&& sgr_from(a, seq![plain(which), plain(5), plain(r as u16)] + rest, 0) == sgr_from(
                    x,
                    rest,
                    0,
                )
                &&& one_sgr(a, seq![which, 5, r as u16]) == Some(x)
                &&& look_of(x) == coloured(look_of(a), which, Color::Idx(r))
                &&& proper(x) && x.link == a.link && x.mode == a.mode
            },
        exists|x: Attrs|
            #![trigger look_of(x)]
            {
                &&& sgr_from(
                    a,
                    seq![plain(which), plain(2), plain(r as u16), plain(g as u16), plain(b as u16)] + rest,
                    0,
                ) == sgr_from(x, rest, 0)
                &&& one_sgr(a, seq![which, 2, r as u16, g as u16, b as u16]) == Some(x)
                &&& one_sgr(a, seq![which, 2, 0, r as u16, g as u16, b as u16]) == Some(x)
                &&& look_of(x) == coloured(look_of(a), which, Color::Rgb(r, g, b))
                &&& proper(x) && x.link == a.link && x.mode == a.mode
            },
{
    lemma_read_index(a, which, r, rest);
    lemma_read_rgb(a, which, r, g, b, rest);
    let x = crate::vt::sgr::with_color(a, which, crate::vt::attrs::Color::Idx(r));
    assert(look_of(x) == coloured(look_of(a), which, Color::Idx(r)));
    let y = crate::vt::sgr::with_color(a, which, crate::vt::attrs::Color::Rgb(r, g, b));
    assert(look_of(y) == coloured(look_of(a), which, Color::Rgb(r, g, b)));
    let e = seq![which, 2, r as u16, g as u16, b as u16];
    let f = seq![which, 2, 0, r as u16, g as u16, b as u16];
    assert(e.len() == 5 && f.len() == 6);
}

/// Whether two screens differ in the style of what is written next at most.
pub open spec fn only_style_set(t: ScreenState, s: ScreenState) -> bool {
    t == (ScreenState {
        modes: crate::vt::screen::Modes { attrs: t.modes.attrs, ..s.modes },
        ..s
    })
}

/// A style sequence sets the attributes that its parameters leave, and nothing else of the
/// screen; without parameters it is a zero.
pub proof fn law_style_sequence_sets_attributes(s: ScreenState, p: Seq<Seq<u16>>)
    ensures
        ({
            let e = EventView::Csi { params: p, intermediates: Seq::empty(), action: 'm' };
            let t = played(s, e);
            &&& t.modes.attrs == sgr(s.modes.attrs, p).0
            &&& only_style_set(t, s)
        }),
        look_of(sgr(s.modes.attrs, Seq::empty()).0) == crate::model::plain_style(),
{
    reveal(played);
    lemma_masks();
}

/// One number behind which no colour follows is read, then the rest.
pub proof fn lemma_number_read(a: Attrs, n: u16, rest: Seq<Seq<u16>>) -> (b: Attrs)
    requires
        proper(a),
        !takes_color(n),
        one_sgr(a, plain(n)) is Some,
    ensures
        sgr_from(a, seq![plain(n)] + rest, 0) == sgr_from(b, rest, 0),
        look_of(b) == look_after(look_of(a), n),
        proper(b),
        b.link == a.link,
{
    let b = one_sgr(a, plain(n))->0;
    law_numbers_have_their_meanings(a, n);
    lemma_read_one(a, plain(n), rest, b);
    b
}

} // verus!
