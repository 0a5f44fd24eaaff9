//! What a painted screen is to the terminal that it is painted on.
use crate::ansi::{color_param, param_if, sgr, ulcolor_param, underline_param};
use crate::model::{CellStyle, Color};
use crate::text::dec;
use crate::vt::attrs::Attrs;
use crate::vt::look_laws::{
    law_extended_colours, law_style_sequence_sets_attributes, law_underline_styles, lemma_number_read,
    look_of, only_style_set,
};
use crate::vt::parser::{played, EventView};
use crate::vt::screen::ScreenState;
use crate::vt::sgr::sgr_from;
use crate::vt::sgr_laws::{
    law_read_attributes_are_proper, lemma_digit, lemma_five_text, lemma_one_text,
    lemma_params_text_concat, lemma_read_one, lemma_three_text, lemma_two_digits, param_text,
    params_text, plain, proper,
};
use crate::vt::spelling::{lemma_spells_sequence, sequence, spells};
use vstd::prelude::*;

verus! {

/// Whether a terminal can show text in this style: not bold and dim at once, in an underline
/// style that there is.
pub open spec fn can_show(s: CellStyle) -> bool {
    !(s.bold && s.dim) && s.underline <= 5 && !s.wide
}

spec fn on(present: bool, p: Seq<Seq<u16>>) -> Seq<Seq<u16>> {
    if present {
        p
    } else {
        Seq::empty()
    }
}

spec fn color_numbers(c: Color, base: u16, which: u16) -> Seq<Seq<u16>> {
    match c {
        Color::Default => Seq::empty(),
        Color::Idx(i) => if which != 58 && i < 8 {
            seq![plain((base + i) as u16)]
        } else if which != 58 && i < 16 {
            seq![plain((base + 52 + i) as u16)]
        } else {
            seq![plain(which), plain(5), plain(i as u16)]
        },
        Color::Rgb(r, g, b) => seq![
            plain(which),
            plain(2),
            plain(r as u16),
            plain(g as u16),
            plain(b as u16),
        ],
    }
}

spec fn underline_numbers(n: u8) -> Seq<Seq<u16>> {
    if n == 0 {
        Seq::empty()
    } else if n == 1 {
        seq![plain(4)]
    } else {
        seq![seq![4u16, n as u16]]
    }
}

spec fn tail_numbers(s: CellStyle) -> Seq<Seq<u16>> {
    underline_numbers(s.underline) + (color_numbers(s.ulcolor, 0, 58) + (color_numbers(s.fg, 30, 38)
        + (color_numbers(s.bg, 40, 48) + Seq::empty())))
}

spec fn style_numbers(s: CellStyle) -> Seq<Seq<u16>> {
    seq![plain(0)] + (on(s.bold, seq![plain(1)]) + (on(s.dim, seq![plain(2)]) + (on(
        s.italic,
        seq![plain(3)],
    ) + (on(s.strike, seq![plain(9)]) + (on(s.inverse, seq![plain(7)]) + tail_numbers(s))))))
}

// ---- how it is written ----

spec fn behind(q: Seq<Seq<u16>>) -> Seq<char> {
    if q.len() == 0 {
        Seq::empty()
    } else {
        ";"@ + params_text(q)
    }
}

proof fn lemma_behind(x: Seq<Seq<u16>>, y: Seq<Seq<u16>>)
    ensures
        behind(x + y) == behind(x) + behind(y),
{
    if x.len() == 0 {
        assert(x + y =~= y);
        assert(behind(x) + behind(y) =~= behind(y));
    } else if y.len() == 0 {
        assert(x + y =~= x);
        assert(behind(x) + behind(y) =~= behind(x));
    } else {
        lemma_params_text_concat(x, y);
        assert(behind(x + y) =~= behind(x) + behind(y));
    }
}

proof fn lemma_flag_behind(present: bool, n: u16, t: Seq<char>)
    requires
        n < 10,
        t =~= seq![';', (0x30 + n) as u8 as char],
    ensures
        behind(on(present, seq![plain(n)])) == param_if(present, t),
{
    reveal_strlit(";");
    lemma_one_text(n);
    lemma_digit(n as nat);
    if present {
        assert(behind(on(present, seq![plain(n)])) =~= t);
    }
}

proof fn lemma_color_behind(c: Color, base: u16, which: u16)
    requires
        (base == 30 && which == 38) || (base == 40 && which == 48) || (base == 0 && which == 58),
    ensures
        behind(color_numbers(c, base, which)) == if which == 58 {
            ulcolor_param(c)
        } else {
            color_param(c, which == 48)
        },
{
    reveal_strlit(";");
    reveal_strlit(";48;5;");
    reveal_strlit(";38;5;");
    reveal_strlit(";58;5;");
    reveal_strlit(";48;2;");
    reveal_strlit(";38;2;");
    reveal_strlit(";58;2;");
    lemma_two_digits(which as nat);
    lemma_digit(5);
    lemma_digit(2);
    let want = if which == 58 {
        ulcolor_param(c)
    } else {
        color_param(c, which == 48)
    };
    match c {
        Color::Default => {},
        Color::Idx(i) => if which != 58 && i < 8 {
            lemma_one_text((base + i) as u16);
            assert(behind(color_numbers(c, base, which)) =~= want);
        } else if which != 58 && i < 16 {
            lemma_one_text((base + 52 + i) as u16);
            assert(behind(color_numbers(c, base, which)) =~= want);
        } else {
            lemma_three_text(which, 5, i as u16);
            assert(behind(color_numbers(c, base, which)) =~= want);
        },
        Color::Rgb(r, g, b) => {
            lemma_five_text(which, 2, r as u16, g as u16, b as u16);
            assert(behind(color_numbers(c, base, which)) =~= want);
        },
    }
}

proof fn lemma_underline_behind(n: u8)
    ensures
        behind(underline_numbers(n)) == underline_param(n),
{
    reveal_strlit(";");
    reveal_strlit(":");
    reveal_strlit(";4");
    reveal_strlit(";4:");
    lemma_digit(4);
    if n == 1 {
        lemma_one_text(4);
        assert(behind(underline_numbers(n)) =~= ";4"@);
    } else if n > 1 {
        let e = seq![4u16, n as u16];
        reveal_with_fuel(params_text, 1);
        assert(e.drop_last() =~= seq![4u16]);
        assert(param_text(seq![4u16]) == dec(4));
        assert(params_text(seq![e]) == param_text(e));
        assert(behind(underline_numbers(n)) =~= underline_param(n));
    }
}

proof fn lemma_tail_behind(s: CellStyle)
    ensures
        behind(tail_numbers(s)) == underline_param(s.underline) + ulcolor_param(s.ulcolor)
            + color_param(s.fg, false) + color_param(s.bg, true),
{
    lemma_underline_behind(s.underline);
    lemma_color_behind(s.ulcolor, 0, 58);
    lemma_color_behind(s.fg, 30, 38);
    lemma_color_behind(s.bg, 40, 48);
    let r4 = Seq::<Seq<u16>>::empty();
    let r3 = color_numbers(s.bg, 40, 48) + r4;
    let r2 = color_numbers(s.fg, 30, 38) + r3;
    let r1 = color_numbers(s.ulcolor, 0, 58) + r2;
    lemma_behind(underline_numbers(s.underline), r1);
    lemma_behind(color_numbers(s.ulcolor, 0, 58), r2);
    lemma_behind(color_numbers(s.fg, 30, 38), r3);
    lemma_behind(color_numbers(s.bg, 40, 48), r4);
    assert(behind(tail_numbers(s)) =~= underline_param(s.underline) + ulcolor_param(s.ulcolor)
        + color_param(s.fg, false) + color_param(s.bg, true));
}

proof fn lemma_eleven(
    e: Seq<char>,
    b: Seq<char>,
    d: Seq<char>,
    i: Seq<char>,
    k: Seq<char>,
    n: Seq<char>,
    u: Seq<char>,
    l: Seq<char>,
    f: Seq<char>,
    g: Seq<char>,
    m: Seq<char>,
)
    ensures
        e + b + d + i + k + n + u + l + f + g + m == e + (b + (d + (i + (k + (n + (u + l + f + g))))))
            + m,
{
    let x = u + l + f + g;
    assert(e + b + d + i + k + n + u + l + f + g =~= e + b + d + i + k + n + x);
    let y = n + x;
    assert(e + b + d + i + k + n + x =~= e + b + d + i + k + y);
    let z = k + y;
    assert(e + b + d + i + k + y =~= e + b + d + i + z);
    let w = i + z;
    assert(e + b + d + i + z =~= e + b + d + w);
    let v = d + w;
    assert(e + b + d + w =~= e + b + v);
    assert(e + b + v =~= e + (b + v));
}

proof fn lemma_flags_behind(s: CellStyle) -> (r1: Seq<Seq<u16>>)
    ensures
        style_numbers(s) == seq![plain(0)] + r1,
        behind(r1) == param_if(s.bold, ";1"@) + (param_if(s.dim, ";2"@) + (param_if(s.italic, ";3"@) + (
        param_if(s.strike, ";9"@) + (param_if(s.inverse, ";7"@) + (underline_param(s.underline)
            + ulcolor_param(s.ulcolor) + color_param(s.fg, false) + color_param(s.bg, true)))))),
{
    reveal_strlit(";1");
    reveal_strlit(";2");
    reveal_strlit(";3");
    reveal_strlit(";9");
    reveal_strlit(";7");
    lemma_flag_behind(s.bold, 1, ";1"@);
    lemma_flag_behind(s.dim, 2, ";2"@);
    lemma_flag_behind(s.italic, 3, ";3"@);
    lemma_flag_behind(s.strike, 9, ";9"@);
    lemma_flag_behind(s.inverse, 7, ";7"@);
    lemma_tail_behind(s);
    let r6 = tail_numbers(s);
    let r5 = on(s.inverse, seq![plain(7)]) + r6;
    let r4 = on(s.strike, seq![plain(9)]) + r5;
    let r3 = on(s.italic, seq![plain(3)]) + r4;
    let r2 = on(s.dim, seq![plain(2)]) + r3;
    let r1 = on(s.bold, seq![plain(1)]) + r2;
    lemma_behind(on(s.inverse, seq![plain(7)]), r6);
    lemma_behind(on(s.strike, seq![plain(9)]), r5);
    lemma_behind(on(s.italic, seq![plain(3)]), r4);
    lemma_behind(on(s.dim, seq![plain(2)]), r3);
    lemma_behind(on(s.bold, seq![plain(1)]), r2);
    r1
}

proof fn lemma_style_written(s: CellStyle)
    ensures
        sgr(s) == seq!['\x1b', '['] + params_text(style_numbers(s)) + seq!['m'],
{
    let r1 = lemma_flags_behind(s);
    let zero = seq![plain(0)];
    lemma_one_text(0);
    lemma_digit(0);
    if r1.len() > 0 {
        lemma_params_text_concat(zero, r1);
        assert(params_text(zero + r1) =~= params_text(zero) + behind(r1));
    } else {
        assert(zero + r1 =~= zero);
        assert(params_text(zero) =~= params_text(zero) + behind(r1));
    }
    lemma_eleven(
        "\x1b[0"@,
        param_if(s.bold, ";1"@),
        param_if(s.dim, ";2"@),
        param_if(s.italic, ";3"@),
        param_if(s.strike, ";9"@),
        param_if(s.inverse, ";7"@),
        underline_param(s.underline),
        ulcolor_param(s.ulcolor),
        color_param(s.fg, false),
        color_param(s.bg, true),
        "m"@,
    );
    reveal_strlit("\x1b[0");
    reveal_strlit("m");
    assert("m"@ =~= seq!['m']);
    assert("\x1b[0"@ + behind(r1) =~= seq!['\x1b', '['] + (params_text(zero) + behind(r1)));
}

proof fn lemma_parts(s: CellStyle)
    ensures
        forall|i: int| 0 <= i < style_numbers(s).len() ==> (#[trigger] style_numbers(s)[i]).len() > 0,
{
    lemma_parts_join(color_numbers(s.bg, 40, 48), Seq::empty());
    let r3 = color_numbers(s.bg, 40, 48) + Seq::empty();
    lemma_parts_join(color_numbers(s.fg, 30, 38), r3);
    let r2 = color_numbers(s.fg, 30, 38) + r3;
    lemma_parts_join(color_numbers(s.ulcolor, 0, 58), r2);
    let r1 = color_numbers(s.ulcolor, 0, 58) + r2;
    lemma_parts_join(underline_numbers(s.underline), r1);
    let r0 = tail_numbers(s);
    lemma_parts_join(on(s.inverse, seq![plain(7)]), r0);
    let q5 = on(s.inverse, seq![plain(7)]) + r0;
    lemma_parts_join(on(s.strike, seq![plain(9)]), q5);
    let q4 = on(s.strike, seq![plain(9)]) + q5;
    lemma_parts_join(on(s.italic, seq![plain(3)]), q4);
    let q3 = on(s.italic, seq![plain(3)]) + q4;
    lemma_parts_join(on(s.dim, seq![plain(2)]), q3);
    let q2 = on(s.dim, seq![plain(2)]) + q3;
    lemma_parts_join(on(s.bold, seq![plain(1)]), q2);
    let q1 = on(s.bold, seq![plain(1)]) + q2;
    lemma_parts_join(seq![plain(0)], q1);
    reveal(has_parts);
}

#[verifier::opaque]
spec fn has_parts(p: Seq<Seq<u16>>) -> bool {
    forall|i: int| 0 <= i < p.len() ==> (#[trigger] p[i]).len() > 0
}

proof fn lemma_parts_join(x: Seq<Seq<u16>>, y: Seq<Seq<u16>>)
    requires
        forall|i: int| 0 <= i < x.len() ==> (#[trigger] x[i]).len() > 0,
        has_parts(y) || y.len() == 0,
    ensures
        has_parts(x + y),
{
    reveal(has_parts);
}

// ---- how it is read ----

proof fn lemma_on_read(a: Attrs, present: bool, n: u16, rest: Seq<Seq<u16>>) -> (b: Attrs)
    requires
        proper(a),
        n == 1 || n == 2 || n == 3 || n == 7 || n == 9,
    ensures
        sgr_from(a, on(present, seq![plain(n)]) + rest, 0) == sgr_from(b, rest, 0),
        proper(b),
        b.link == a.link,
        look_of(b) == if !present {
            look_of(a)
        } else if n == 1 {
            CellStyle { bold: true, dim: false, ..look_of(a) }
        } else if n == 2 {
            CellStyle { bold: false, dim: true, ..look_of(a) }
        } else if n == 3 {
            CellStyle { italic: true, ..look_of(a) }
        } else if n == 7 {
            CellStyle { inverse: true, ..look_of(a) }
        } else {
            CellStyle { strike: true, ..look_of(a) }
        },
{
    if present {
        lemma_number_read(a, n, rest)
    } else {
        assert(on(present, seq![plain(n)]) + rest =~= rest);
        a
    }
}

proof fn lemma_color_read(a: Attrs, c: Color, base: u16, which: u16, rest: Seq<Seq<u16>>) -> (b: Attrs)
    requires
        proper(a),
        (base == 30 && which == 38) || (base == 40 && which == 48) || (base == 0 && which == 58),
        which == 38 ==> look_of(a).fg == Color::Default,
        which == 48 ==> look_of(a).bg == Color::Default,
        which == 58 ==> look_of(a).ulcolor == Color::Default,
    ensures
        sgr_from(a, color_numbers(c, base, which) + rest, 0) == sgr_from(b, rest, 0),
        proper(b),
        b.link == a.link,
        look_of(b) == if which == 38 {
            CellStyle { fg: c, ..look_of(a) }
        } else if which == 48 {
            CellStyle { bg: c, ..look_of(a) }
        } else {
            CellStyle { ulcolor: c, ..look_of(a) }
        },
{
    match c {
        Color::Default => {
            assert(color_numbers(c, base, which) + rest =~= rest);
            a
        },
        Color::Idx(i) => if which != 58 && i < 8 {
            lemma_number_read(a, (base + i) as u16, rest)
        } else if which != 58 && i < 16 {
            lemma_number_read(a, (base + 52 + i) as u16, rest)
        } else {
            law_extended_colours(a, which, i, 0, 0, rest);
            let x = choose|x: Attrs|
                #![trigger look_of(x)]
                {
                    &&& sgr_from(a, seq![plain(which), plain(5), plain(i as u16)] + rest, 0)
                        == sgr_from(x, rest, 0)
                    &&& crate::vt::sgr::one_sgr(a, seq![which, 5, i as u16]) == Some(x)
                    &&& look_of(x) == crate::vt::look_laws::coloured(look_of(a), which, Color::Idx(i))
                    &&& proper(x) && x.link == a.link && x.mode == a.mode
                };
            x
        },
        Color::Rgb(r, g, b) => {
            law_extended_colours(a, which, r, g, b, rest);
            let x = choose|x: Attrs|
                #![trigger look_of(x)]
                {
                    &&& sgr_from(
                        a,
                        seq![plain(which), plain(2), plain(r as u16), plain(g as u16), plain(b as u16)]
                            + rest,
                        0,
                    ) == sgr_from(x, rest, 0)
                    &&& crate::vt::sgr::one_sgr(a, seq![which, 2, r as u16, g as u16, b as u16]) == Some(x)
                    &&& crate::vt::sgr::one_sgr(a, seq![which, 2, 0, r as u16, g as u16, b as u16])
                        == Some(x)
                    &&& look_of(x) == crate::vt::look_laws::coloured(
                        look_of(a),
                        which,
                        Color::Rgb(r, g, b),
                    )
                    &&& proper(x) && x.link == a.link && x.mode == a.mode
                };
            x
        },
    }
}

proof fn lemma_underline_read(a: Attrs, n: u8, rest: Seq<Seq<u16>>) -> (b: Attrs)
    requires
        proper(a),
        n <= 5,
        look_of(a).underline == 0,
    ensures
        sgr_from(a, underline_numbers(n) + rest, 0) == sgr_from(b, rest, 0),
        proper(b),
        b.link == a.link,
        look_of(b) == (CellStyle { underline: n, ..look_of(a) }),
{
    if n == 0 {
        assert(underline_numbers(n) + rest =~= rest);
        a
    } else if n == 1 {
        lemma_number_read(a, 4, rest)
    } else {
        law_underline_styles(a, n as u16);
        let e = seq![4u16, n as u16];
        let b = crate::vt::sgr::one_sgr(a, e)->0;
        lemma_read_one(a, e, rest, b);
        b
    }
}

proof fn lemma_tail_read(a: Attrs, s: CellStyle) -> (b: Attrs)
    requires
        proper(a),
        can_show(s),
        look_of(a).underline == 0,
        look_of(a).fg == Color::Default,
        look_of(a).bg == Color::Default,
        look_of(a).ulcolor == Color::Default,
    ensures
        sgr_from(a, tail_numbers(s), 0) == (b, 0int),
        proper(b),
        b.link == a.link,
        look_of(b) == (CellStyle {
            underline: s.underline,
            ulcolor: s.ulcolor,
            fg: s.fg,
            bg: s.bg,
            ..look_of(a)
        }),
{
    let r4 = Seq::<Seq<u16>>::empty();
    let r3 = color_numbers(s.bg, 40, 48) + r4;
    let r2 = color_numbers(s.fg, 30, 38) + r3;
    let r1 = color_numbers(s.ulcolor, 0, 58) + r2;
    let a1 = lemma_underline_read(a, s.underline, r1);
    let a2 = lemma_color_read(a1, s.ulcolor, 0, 58, r2);
    let a3 = lemma_color_read(a2, s.fg, 30, 38, r3);
    lemma_color_read(a3, s.bg, 40, 48, r4)
}

proof fn lemma_style_read(a: Attrs, s: CellStyle) -> (b: Attrs)
    requires
        proper(a),
        can_show(s),
    ensures
        sgr_from(a, style_numbers(s), 0) == (b, 0int),
        proper(b),
        b.link == a.link,
        look_of(b) == s,
{
    let r6 = tail_numbers(s);
    let r5 = on(s.inverse, seq![plain(7)]) + r6;
    let r4 = on(s.strike, seq![plain(9)]) + r5;
    let r3 = on(s.italic, seq![plain(3)]) + r4;
    let r2 = on(s.dim, seq![plain(2)]) + r3;
    let r1 = on(s.bold, seq![plain(1)]) + r2;
    let a0 = lemma_number_read(a, 0, r1);
    let a1 = lemma_on_read(a0, s.bold, 1, r2);
    let a2 = lemma_on_read(a1, s.dim, 2, r3);
    let a3 = lemma_on_read(a2, s.italic, 3, r4);
    let a4 = lemma_on_read(a3, s.strike, 9, r5);
    let a5 = lemma_on_read(a4, s.inverse, 7, r6);
    lemma_tail_read(a5, s)
}

/// The code for a style spells one sequence of a terminal, and a terminal that gets it writes
/// text from then on in just that style, whatever the style was before; nothing else of its
/// screen changes.
pub proof fn law_style_code_sets_the_style(st: ScreenState, s: CellStyle)
    requires
        proper(st.modes.attrs),
        can_show(s),
    ensures
        exists|p: Seq<Seq<u16>>|
            #![trigger sequence(false, p, 'm')]
            {
                let t = played(st, sequence(false, p, 'm'));
                &&& spells(sgr(s), seq![sequence(false, p, 'm')])
                &&& look_of(t.modes.attrs) == s
                &&& proper(t.modes.attrs)
                &&& t.modes.attrs.link == st.modes.attrs.link
                &&& only_style_set(t, st)
            },
{
    let p = style_numbers(s);
    lemma_style_written(s);
    lemma_parts(s);
    lemma_spells_sequence(sgr(s), false, p, 'm');
    let b = lemma_style_read(st.modes.attrs, s);
    law_style_sequence_sets_attributes(st, p);
    law_read_attributes_are_proper(st.modes.attrs, p);
    assert(sequence(false, p, 'm') == EventView::Csi {
        params: p,
        intermediates: Seq::empty(),
        action: 'm',
    });
}

} // verus!
