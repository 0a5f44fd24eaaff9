//! The attributes that are written are those that are read.
use crate::text::dec;
use crate::vt::attrs::{
    bits_differ, code_if, color_codes, diff_codes, escape_diff, flag_code, joined_codes, no_attrs,
    ulcolor_codes, underline_codes, Attrs, Color, TEXT_MODE_BLINK, TEXT_MODE_CONCEALED,
    TEXT_MODE_INTENSITY, TEXT_MODE_INVERSE, TEXT_MODE_ITALIC, TEXT_MODE_STRIKETHROUGH,
    TEXT_MODE_UNDERLINE,
};
use crate::vt::sgr::{
    following_color, one_sgr, sgr, sgr_from, simple_sgr, single, takes_color, with_color,
};
use vstd::prelude::*;
use vstd::string::*;

verus! {

/// Whether attributes are such as the setters lead to: not bold and dim at once, no link of the
/// number zero, an underline style that there is, and no bit beyond those that have a meaning.
pub open spec fn proper(a: Attrs) -> bool {
    a.wf() && a.link_ok() && a.underlined() <= 5 && a.mode < 0x400
}

/// Parameters, where they are needed.
#[verifier::opaque]
pub open spec fn params_if(needed: bool, p: Seq<Seq<u16>>) -> Seq<Seq<u16>> {
    if needed {
        p
    } else {
        Seq::empty()
    }
}

/// A parameter without parts.
pub open spec fn plain(n: u16) -> Seq<u16> {
    seq![n]
}

/// The parameters for a text or background colour; `base` is 30 or 40.
#[verifier::opaque]
pub open spec fn color_params(c: Color, base: u16) -> Seq<Seq<u16>> {
    match c {
        Color::Default => seq![plain((base + 9) as u16)],
        Color::Idx(i) => if i < 8 {
            seq![plain((base + i) as u16)]
        } else if i < 16 {
            seq![plain((base + 52 + i) as u16)]
        } else {
            seq![plain((base + 8) as u16), plain(5), plain(i as u16)]
        },
        Color::Rgb(r, g, b) => seq![
            plain((base + 8) as u16),
            plain(2),
            plain(r as u16),
            plain(g as u16),
            plain(b as u16),
        ],
    }
}

/// The parameters for an underline colour.
#[verifier::opaque]
pub open spec fn ulcolor_params(c: Color) -> Seq<Seq<u16>> {
    match c {
        Color::Default => seq![plain(59)],
        Color::Idx(i) => seq![plain(58), plain(5), plain(i as u16)],
        Color::Rgb(r, g, b) => seq![
            plain(58),
            plain(2),
            plain(r as u16),
            plain(g as u16),
            plain(b as u16),
        ],
    }
}

/// The parameters for an underline style.
#[verifier::opaque]
pub open spec fn underline_params(style: u8) -> Seq<Seq<u16>> {
    if style == 0 {
        seq![plain(24)]
    } else if style == 1 {
        seq![plain(4)]
    } else {
        seq![seq![4u16, style as u16]]
    }
}

/// A parameter for on and one for off.
#[verifier::opaque]
pub open spec fn flag_params(on: bool, set: u16, clear: u16) -> Seq<Seq<u16>> {
    seq![
        plain(
            if on {
                set
            } else {
                clear
            },
        ),
    ]
}

/// The parameter for an intensity.
#[verifier::opaque]
pub open spec fn intensity_params(a: Attrs) -> Seq<Seq<u16>> {
    seq![
        plain(
            if a.is_bold() {
                1
            } else if a.is_dim() {
                2
            } else {
                22
            },
        ),
    ]
}

/// The parameters for everything in which `a` differs from `b`.
pub open spec fn sgr_params(a: Attrs, b: Attrs) -> Seq<Seq<u16>> {
    params_if(a.fgcolor != b.fgcolor, color_params(a.fgcolor, 30)) + (params_if(
        a.bgcolor != b.bgcolor,
        color_params(a.bgcolor, 40),
    ) + (params_if(
        a.is_bold() != b.is_bold() || a.is_dim() != b.is_dim(),
        intensity_params(a),
    ) + (params_if(
        bits_differ(a, b, TEXT_MODE_ITALIC),
        flag_params(a.mode & TEXT_MODE_ITALIC != 0, 3, 23),
    ) + (params_if(a.underlined() != b.underlined(), underline_params(a.underlined())) + (params_if(
        bits_differ(a, b, TEXT_MODE_STRIKETHROUGH),
        flag_params(a.mode & TEXT_MODE_STRIKETHROUGH != 0, 9, 29),
    ) + (params_if(a.ulcolor != b.ulcolor, ulcolor_params(a.ulcolor)) + (params_if(
        bits_differ(a, b, TEXT_MODE_INVERSE),
        flag_params(a.mode & TEXT_MODE_INVERSE != 0, 7, 27),
    ) + (params_if(
        bits_differ(a, b, TEXT_MODE_CONCEALED),
        flag_params(a.mode & TEXT_MODE_CONCEALED != 0, 8, 28),
    ) + params_if(
        bits_differ(a, b, TEXT_MODE_BLINK),
        flag_params(a.mode & TEXT_MODE_BLINK != 0, 5, 25),
    )))))))))
}

/// The parameters of the sequence that takes a terminal from `b` to `a`; `None` where there is
/// no sequence.
pub open spec fn written_params(a: Attrs, b: Attrs) -> Option<Seq<Seq<u16>>> {
    if a != b && a == no_attrs() {
        Some(Seq::empty())
    } else if sgr_params(a, b).len() == 0 {
        None
    } else {
        Some(sgr_params(a, b))
    }
}

/// How a parameter is written: its parts with colons between them.
pub open spec fn param_text(e: Seq<u16>) -> Seq<char>
    decreases e.len(),
{
    if e.len() == 0 {
        Seq::empty()
    } else if e.len() == 1 {
        dec(e[0] as nat)
    } else {
        param_text(e.drop_last()) + ":"@ + dec(e.last() as nat)
    }
}

/// How parameters are written: with semicolons between them.
#[verifier::opaque]
pub open spec fn params_text(p: Seq<Seq<u16>>) -> Seq<char>
    decreases p.len(),
{
    if p.len() == 0 {
        Seq::empty()
    } else if p.len() == 1 {
        param_text(p[0])
    } else {
        params_text(p.drop_last()) + ";"@ + param_text(p.last())
    }
}

// ---- the text ----

pub(crate) proof fn lemma_params_text_concat(p: Seq<Seq<u16>>, q: Seq<Seq<u16>>)
    requires
        p.len() > 0,
        q.len() > 0,
    ensures
        params_text(p + q) == params_text(p) + ";"@ + params_text(q),
    decreases q.len(),
{
    reveal_with_fuel(params_text, 1);
    let t = p + q;
    assert(t.last() == q.last());
    if q.len() == 1 {
        assert(t.drop_last() =~= p);
    } else {
        assert(t.drop_last() =~= p + q.drop_last());
        lemma_params_text_concat(p, q.drop_last());
        assert(params_text(t) =~= params_text(p) + ";"@ + params_text(q));
    }
}

#[verifier::opaque]
spec fn spelled(codes: Seq<Seq<char>>, p: Seq<Seq<u16>>) -> bool {
    joined_codes(codes) == params_text(p) && (codes.len() == 0 <==> p.len() == 0)
}

proof fn lemma_spelled_more(
    codes: Seq<Seq<char>>,
    p: Seq<Seq<u16>>,
    needed: bool,
    q: Seq<Seq<u16>>,
)
    requires
        spelled(codes, p),
        q.len() > 0,
    ensures
        spelled(codes + code_if(needed, params_text(q)), p + params_if(needed, q)),
{
    reveal(code_if);
    reveal(params_if);
    reveal(spelled);
    reveal_with_fuel(params_text, 1);
    let text = params_text(q);
    if needed {
        let t = codes + seq![text];
        assert(t.drop_last() =~= codes);
        assert(t.last() == text);
        if codes.len() == 0 {
            assert(p + q =~= q);
            assert(t =~= seq![text]);
        } else {
            lemma_params_text_concat(p, q);
        }
    } else {
        assert(codes + code_if(needed, text) =~= codes);
        assert(p + params_if(needed, q) =~= p);
    }
}

pub(crate) proof fn lemma_one_text(n: u16)
    ensures
        params_text(seq![plain(n)]) == dec(n as nat),
{
    reveal_with_fuel(params_text, 1);
}

pub(crate) proof fn lemma_one_more(p: Seq<Seq<u16>>, n: u16)
    requires
        p.len() > 0,
    ensures
        params_text(p.push(plain(n))) == params_text(p) + ";"@ + dec(n as nat),
{
    reveal_with_fuel(params_text, 1);
    assert(p.push(plain(n)).drop_last() =~= p);
    assert(param_text(plain(n)) == dec(n as nat));
}

pub(crate) proof fn lemma_three_text(a: u16, b: u16, c: u16)
    ensures
        params_text(seq![plain(a), plain(b), plain(c)]) == dec(a as nat) + ";"@ + dec(b as nat)
            + ";"@ + dec(c as nat),
{
    let p = seq![plain(a)];
    lemma_one_text(a);
    lemma_one_more(p, b);
    lemma_one_more(p.push(plain(b)), c);
    assert(seq![plain(a), plain(b), plain(c)] =~= p.push(plain(b)).push(plain(c)));
}

pub(crate) proof fn lemma_five_text(a: u16, b: u16, c: u16, d: u16, e: u16)
    ensures
        params_text(seq![plain(a), plain(b), plain(c), plain(d), plain(e)]) == dec(a as nat) + ";"@
            + dec(b as nat) + ";"@ + dec(c as nat) + ";"@ + dec(d as nat) + ";"@ + dec(e as nat),
{
    let p = seq![plain(a), plain(b), plain(c)];
    lemma_three_text(a, b, c);
    lemma_one_more(p, d);
    lemma_one_more(p.push(plain(d)), e);
    assert(seq![plain(a), plain(b), plain(c), plain(d), plain(e)] =~= p.push(plain(d)).push(
        plain(e),
    ));
}

pub(crate) proof fn lemma_digit(n: nat)
    requires
        n < 10,
    ensures
        dec(n) =~= seq![(0x30 + n) as u8 as char],
{
}

pub(crate) proof fn lemma_two_digits(n: nat)
    requires
        10 <= n < 100,
    ensures
        dec(n) =~= seq![(0x30 + n / 10) as u8 as char, (0x30 + n % 10) as u8 as char],
{
    lemma_digit(n / 10);
}

proof fn lemma_color_text(c: Color, base: u8)
    requires
        base == 30 || base == 40,
    ensures
        color_codes(c, base) == params_text(color_params(c, base as u16)),
        color_params(c, base as u16).len() > 0,
{
    reveal(color_params);
    reveal(color_codes);
    reveal_with_fuel(params_text, 1);
    lemma_digit(5);
    lemma_digit(2);
    reveal_strlit(";5;");
    reveal_strlit(";2;");
    reveal_strlit(";");
    match c {
        Color::Default => {},
        Color::Idx(i) => {
            lemma_three_text((base + 8) as u16, 5, i as u16);
            assert(";5;"@ =~= ";"@ + dec(5) + ";"@);
            if i >= 16 {
                assert(color_codes(c, base) =~= params_text(color_params(c, base as u16)));
            }
        },
        Color::Rgb(r, g, b) => {
            lemma_five_text((base + 8) as u16, 2, r as u16, g as u16, b as u16);
            assert(";2;"@ =~= ";"@ + dec(2) + ";"@);
            assert(color_codes(c, base) =~= params_text(color_params(c, base as u16)));
        },
    }
}

proof fn lemma_ulcolor_text(c: Color)
    ensures
        ulcolor_codes(c) == params_text(ulcolor_params(c)),
        ulcolor_params(c).len() > 0,
{
    reveal(ulcolor_params);
    reveal(ulcolor_codes);
    reveal_with_fuel(params_text, 1);
    lemma_digit(5);
    lemma_digit(2);
    lemma_two_digits(58);
    lemma_two_digits(59);
    reveal_strlit("58;5;");
    reveal_strlit("58;2;");
    reveal_strlit("59");
    reveal_strlit(";");
    match c {
        Color::Default => {
            assert("59"@ =~= dec(59));
        },
        Color::Idx(i) => {
            lemma_three_text(58, 5, i as u16);
            assert("58;5;"@ =~= dec(58) + ";"@ + dec(5) + ";"@);
            assert(ulcolor_codes(c) =~= params_text(ulcolor_params(c)));
        },
        Color::Rgb(r, g, b) => {
            lemma_five_text(58, 2, r as u16, g as u16, b as u16);
            assert("58;2;"@ =~= dec(58) + ";"@ + dec(2) + ";"@);
            assert(ulcolor_codes(c) =~= params_text(ulcolor_params(c)));
        },
    }
}

proof fn lemma_underline_text(style: u8)
    ensures
        underline_codes(style) == params_text(underline_params(style)),
        underline_params(style).len() > 0,
{
    reveal(underline_params);
    reveal(underline_codes);
    reveal_with_fuel(params_text, 1);
    lemma_digit(4);
    lemma_two_digits(24);
    reveal_strlit("24");
    reveal_strlit("4");
    reveal_strlit("4:");
    reveal_strlit(":");
    if style == 0 {
        assert("24"@ =~= dec(24));
    } else if style == 1 {
        assert("4"@ =~= dec(4));
    } else {
        let e = seq![4u16, style as u16];
        assert(e.drop_last() =~= seq![4u16]);
        assert(param_text(seq![4u16]) == dec(4));
        assert("4:"@ =~= dec(4) + ":"@);
        assert(underline_codes(style) =~= param_text(e));
        assert(underline_params(style)[0] == e);
    }
}

proof fn lemma_flag_text(on: bool)
    ensures
        flag_code(on, "3"@, "23"@) == params_text(flag_params(on, 3, 23)),
        flag_code(on, "9"@, "29"@) == params_text(flag_params(on, 9, 29)),
        flag_code(on, "7"@, "27"@) == params_text(flag_params(on, 7, 27)),
        flag_code(on, "8"@, "28"@) == params_text(flag_params(on, 8, 28)),
        flag_code(on, "5"@, "25"@) == params_text(flag_params(on, 5, 25)),
        forall|x: u16, y: u16| (#[trigger] flag_params(on, x, y)).len() > 0,
{
    reveal(flag_params);
    reveal(flag_code);
    reveal_with_fuel(params_text, 1);
    reveal_strlit("3");
    reveal_strlit("23");
    reveal_strlit("9");
    reveal_strlit("29");
    reveal_strlit("7");
    reveal_strlit("27");
    reveal_strlit("8");
    reveal_strlit("28");
    reveal_strlit("5");
    reveal_strlit("25");
    lemma_digit(3);
    lemma_digit(9);
    lemma_digit(7);
    lemma_digit(8);
    lemma_digit(5);
    lemma_two_digits(23);
    lemma_two_digits(29);
    lemma_two_digits(27);
    lemma_two_digits(28);
    lemma_two_digits(25);
    assert("3"@ =~= dec(3) && "23"@ =~= dec(23));
    assert("9"@ =~= dec(9) && "29"@ =~= dec(29));
    assert("7"@ =~= dec(7) && "27"@ =~= dec(27));
    assert("8"@ =~= dec(8) && "28"@ =~= dec(28));
    assert("5"@ =~= dec(5) && "25"@ =~= dec(25));
}

proof fn lemma_intensity_text(a: Attrs)
    ensures
        (if a.is_bold() {
            "1"@
        } else if a.is_dim() {
            "2"@
        } else {
            "22"@
        }) == params_text(intensity_params(a)),
        intensity_params(a).len() > 0,
{
    reveal(intensity_params);
    reveal_with_fuel(params_text, 1);
    reveal_strlit("1");
    reveal_strlit("2");
    reveal_strlit("22");
    lemma_digit(1);
    lemma_digit(2);
    lemma_two_digits(22);
    assert("1"@ =~= dec(1));
    assert("2"@ =~= dec(2));
    assert("22"@ =~= dec(22));
}

proof fn lemma_regrouped<A>(p: Seq<A>, q: Seq<A>, r: Seq<A>)
    ensures
        (p + q) + r == p + (q + r),
{
    assert((p + q) + r =~= p + (q + r));
}

proof fn lemma_spelled_five(
    c: Seq<Seq<char>>,
    p: Seq<Seq<u16>>,
    n: (bool, bool, bool, bool, bool),
    q: (Seq<Seq<u16>>, Seq<Seq<u16>>, Seq<Seq<u16>>, Seq<Seq<u16>>, Seq<Seq<u16>>),
)
    requires
        spelled(c, p),
        q.0.len() > 0,
        q.1.len() > 0,
        q.2.len() > 0,
        q.3.len() > 0,
        q.4.len() > 0,
    ensures
        spelled(
            c + code_if(n.0, params_text(q.0)) + code_if(n.1, params_text(q.1)) + code_if(
                n.2,
                params_text(q.2),
            ) + code_if(n.3, params_text(q.3)) + code_if(n.4, params_text(q.4)),
            p + (params_if(n.0, q.0) + (params_if(n.1, q.1) + (params_if(n.2, q.2) + (params_if(
                n.3,
                q.3,
            ) + params_if(n.4, q.4))))),
        ),
{
    let p0 = p + params_if(n.0, q.0);
    let p1 = p0 + params_if(n.1, q.1);
    let p2 = p1 + params_if(n.2, q.2);
    let p3 = p2 + params_if(n.3, q.3);
    let c0 = c + code_if(n.0, params_text(q.0));
    let c1 = c0 + code_if(n.1, params_text(q.1));
    let c2 = c1 + code_if(n.2, params_text(q.2));
    let c3 = c2 + code_if(n.3, params_text(q.3));
    lemma_spelled_more(c, p, n.0, q.0);
    lemma_spelled_more(c0, p0, n.1, q.1);
    lemma_spelled_more(c1, p1, n.2, q.2);
    lemma_spelled_more(c2, p2, n.3, q.3);
    lemma_spelled_more(c3, p3, n.4, q.4);
    let r3 = params_if(n.3, q.3) + params_if(n.4, q.4);
    let r2 = params_if(n.2, q.2) + r3;
    let r1 = params_if(n.1, q.1) + r2;
    lemma_regrouped(p2, params_if(n.3, q.3), params_if(n.4, q.4));
    lemma_regrouped(p1, params_if(n.2, q.2), r3);
    lemma_regrouped(p0, params_if(n.1, q.1), r2);
    lemma_regrouped(p, params_if(n.0, q.0), r1);
}

proof fn lemma_spelled_ten(
    n: (bool, bool, bool, bool, bool),
    m: (bool, bool, bool, bool, bool),
    q: (Seq<Seq<u16>>, Seq<Seq<u16>>, Seq<Seq<u16>>, Seq<Seq<u16>>, Seq<Seq<u16>>),
    r: (Seq<Seq<u16>>, Seq<Seq<u16>>, Seq<Seq<u16>>, Seq<Seq<u16>>, Seq<Seq<u16>>),
)
    requires
        q.0.len() > 0,
        q.1.len() > 0,
        q.2.len() > 0,
        q.3.len() > 0,
        q.4.len() > 0,
        r.0.len() > 0,
        r.1.len() > 0,
        r.2.len() > 0,
        r.3.len() > 0,
        r.4.len() > 0,
    ensures
        spelled(
            code_if(n.0, params_text(q.0)) + code_if(n.1, params_text(q.1)) + code_if(
                n.2,
                params_text(q.2),
            ) + code_if(n.3, params_text(q.3)) + code_if(n.4, params_text(q.4)) + code_if(
                m.0,
                params_text(r.0),
            ) + code_if(m.1, params_text(r.1)) + code_if(m.2, params_text(r.2)) + code_if(
                m.3,
                params_text(r.3),
            ) + code_if(m.4, params_text(r.4)),
            params_if(n.0, q.0) + (params_if(n.1, q.1) + (params_if(n.2, q.2) + (params_if(
                n.3,
                q.3,
            ) + (params_if(n.4, q.4) + (params_if(m.0, r.0) + (params_if(m.1, r.1) + (params_if(
                m.2,
                r.2,
            ) + (params_if(m.3, r.3) + params_if(m.4, r.4))))))))),
        ),
{
    let e = Seq::<Seq<char>>::empty();
    let f = Seq::<Seq<u16>>::empty();
    assert(spelled(e, f)) by {
        reveal(spelled);
        reveal_with_fuel(params_text, 1);
    }
    lemma_spelled_five(e, f, n, q);
    let x0 = params_if(n.0, q.0);
    let x1 = params_if(n.1, q.1);
    let x2 = params_if(n.2, q.2);
    let x3 = params_if(n.3, q.3);
    let x4 = params_if(n.4, q.4);
    let head = x0 + (x1 + (x2 + (x3 + x4)));
    let c0 = code_if(n.0, params_text(q.0));
    assert(e + c0 =~= c0);
    assert(f + head =~= head);
    let c = c0 + code_if(n.1, params_text(q.1)) + code_if(n.2, params_text(q.2)) + code_if(
        n.3,
        params_text(q.3),
    ) + code_if(n.4, params_text(q.4));
    lemma_spelled_five(c, head, m, r);
    let tail = params_if(m.0, r.0) + (params_if(m.1, r.1) + (params_if(m.2, r.2) + (params_if(
        m.3,
        r.3,
    ) + params_if(m.4, r.4))));
    lemma_regrouped(x0, x1 + (x2 + (x3 + x4)), tail);
    lemma_regrouped(x1, x2 + (x3 + x4), tail);
    lemma_regrouped(x2, x3 + x4, tail);
    lemma_regrouped(x3, x4, tail);
}

proof fn lemma_diff_spelled(a: Attrs, b: Attrs)
    ensures
        spelled(diff_codes(a, b), sgr_params(a, b)),
{
    let italic = a.mode & TEXT_MODE_ITALIC != 0;
    let strike = a.mode & TEXT_MODE_STRIKETHROUGH != 0;
    let inverse = a.mode & TEXT_MODE_INVERSE != 0;
    let concealed = a.mode & TEXT_MODE_CONCEALED != 0;
    let blink = a.mode & TEXT_MODE_BLINK != 0;
    lemma_color_text(a.fgcolor, 30);
    lemma_color_text(a.bgcolor, 40);
    lemma_intensity_text(a);
    lemma_flag_text(italic);
    lemma_underline_text(a.underlined());
    lemma_flag_text(strike);
    lemma_ulcolor_text(a.ulcolor);
    lemma_flag_text(inverse);
    lemma_flag_text(concealed);
    lemma_flag_text(blink);
    let n = (
        a.fgcolor != b.fgcolor,
        a.bgcolor != b.bgcolor,
        a.is_bold() != b.is_bold() || a.is_dim() != b.is_dim(),
        bits_differ(a, b, TEXT_MODE_ITALIC),
        a.underlined() != b.underlined(),
    );
    let m = (
        bits_differ(a, b, TEXT_MODE_STRIKETHROUGH),
        a.ulcolor != b.ulcolor,
        bits_differ(a, b, TEXT_MODE_INVERSE),
        bits_differ(a, b, TEXT_MODE_CONCEALED),
        bits_differ(a, b, TEXT_MODE_BLINK),
    );
    let q = (
        color_params(a.fgcolor, 30),
        color_params(a.bgcolor, 40),
        intensity_params(a),
        flag_params(italic, 3, 23),
        underline_params(a.underlined()),
    );
    let r = (
        flag_params(strike, 9, 29),
        ulcolor_params(a.ulcolor),
        flag_params(inverse, 7, 27),
        flag_params(concealed, 8, 28),
        flag_params(blink, 5, 25),
    );
    lemma_spelled_ten(n, m, q, r);
}

/// The sequence that is written has these parameters.
pub proof fn law_sequence_has_its_parameters(a: Attrs, b: Attrs)
    ensures
        escape_diff(a, b) == (match written_params(a, b) {
            Some(p) => "\x1b["@ + params_text(p) + "m"@,
            None => Seq::empty(),
        }),
{
    lemma_diff_spelled(a, b);
    reveal(spelled);
    reveal_with_fuel(params_text, 1);
    reveal_strlit("\x1b[m");
    reveal_strlit("\x1b[");
    reveal_strlit("m");
    assert("\x1b[m"@ =~= "\x1b["@ + params_text(Seq::empty()) + "m"@);
}

// ---- what is read ----

proof fn lemma_single_skip(p: Seq<Seq<u16>>, k: int, i: int)
    requires
        0 <= k <= p.len(),
        0 <= i,
    ensures
        single(p.skip(k), i) == single(p, k + i),
{
    if k + i < p.len() {
        assert(p.skip(k)[i] == p[k + i]);
    }
}

proof fn lemma_sgr_skip(a: Attrs, p: Seq<Seq<u16>>, k: int, i: int)
    requires
        0 <= k <= i <= p.len(),
    ensures
        sgr_from(a, p, i) == sgr_from(a, p.skip(k), i - k),
    decreases p.len() - i,
{
    let q = p.skip(k);
    if i < p.len() {
        assert(q[i - k] == p[i]);
        lemma_single_skip(p, k, i + 1 - k);
        lemma_single_skip(p, k, i + 2 - k);
        lemma_single_skip(p, k, i + 3 - k);
        lemma_single_skip(p, k, i + 4 - k);
        assert(following_color(p, i + 1) == following_color(q, i + 1 - k));
        if p[i].len() == 1 && takes_color(p[i][0]) {
            match following_color(p, i + 1) {
                Some((c, n)) => {
                    assert(i + 1 + n <= p.len());
                    lemma_sgr_skip(with_color(a, p[i][0], c), p, k, i + 1 + n);
                },
                None => {},
            }
        } else {
            match one_sgr(a, p[i]) {
                Some(x) => lemma_sgr_skip(x, p, k, i + 1),
                None => lemma_sgr_skip(a, p, k, i + 1),
            }
        }
    }
}

pub(crate) proof fn lemma_read_one(a: Attrs, e: Seq<u16>, rest: Seq<Seq<u16>>, x: Attrs)
    requires
        !(e.len() == 1 && takes_color(e[0])),
        one_sgr(a, e) == Some(x),
    ensures
        sgr_from(a, seq![e] + rest, 0) == sgr_from(x, rest, 0),
{
    let p = seq![e] + rest;
    assert(p[0] == e);
    lemma_sgr_skip(x, p, 1, 1);
    assert(p.skip(1) =~= rest);
}

pub(crate) proof fn lemma_read_index(a: Attrs, which: u16, i: u8, rest: Seq<Seq<u16>>)
    requires
        takes_color(which),
    ensures
        sgr_from(a, seq![plain(which), plain(5), plain(i as u16)] + rest, 0) == sgr_from(
            with_color(a, which, Color::Idx(i)),
            rest,
            0,
        ),
{
    let p = seq![plain(which), plain(5), plain(i as u16)] + rest;
    assert(p[0] == plain(which) && p[1] == plain(5) && p[2] == plain(i as u16));
    assert(single(p, 1) == Some(5u16) && single(p, 2) == Some(i as u16));
    assert(following_color(p, 1) == Some((Color::Idx(i), 2int)));
    let x = with_color(a, which, Color::Idx(i));
    lemma_sgr_skip(x, p, 3, 3);
    assert(p.skip(3) =~= rest);
}

pub(crate) proof fn lemma_read_rgb(a: Attrs, which: u16, r: u8, g: u8, b: u8, rest: Seq<Seq<u16>>)
    requires
        takes_color(which),
    ensures
        sgr_from(
            a,
            seq![plain(which), plain(2), plain(r as u16), plain(g as u16), plain(b as u16)] + rest,
            0,
        ) == sgr_from(with_color(a, which, Color::Rgb(r, g, b)), rest, 0),
{
    let p = seq![plain(which), plain(2), plain(r as u16), plain(g as u16), plain(b as u16)] + rest;
    assert(p[0] == plain(which) && p[1] == plain(2) && p[2] == plain(r as u16));
    assert(p[3] == plain(g as u16) && p[4] == plain(b as u16));
    assert(single(p, 1) == Some(2u16) && single(p, 2) == Some(r as u16));
    assert(single(p, 3) == Some(g as u16) && single(p, 4) == Some(b as u16));
    assert(following_color(p, 1) == Some((Color::Rgb(r, g, b), 4int)));
    let x = with_color(a, which, Color::Rgb(r, g, b));
    lemma_sgr_skip(x, p, 5, 5);
    assert(p.skip(5) =~= rest);
}

proof fn lemma_read_fg(a: Attrs, c: Color, rest: Seq<Seq<u16>>)
    ensures
        sgr_from(a, color_params(c, 30) + rest, 0) == sgr_from(
            Attrs { fgcolor: c, ..a },
            rest,
            0,
        ),
{
    reveal(color_params);
    let x = Attrs { fgcolor: c, ..a };
    match c {
        Color::Default => lemma_read_one(a, plain(39), rest, x),
        Color::Idx(i) => if i < 8 {
            lemma_read_one(a, plain((30 + i) as u16), rest, x);
        } else if i < 16 {
            lemma_read_one(a, plain((82 + i) as u16), rest, x);
        } else {
            lemma_read_index(a, 38, i, rest);
        },
        Color::Rgb(r, g, b) => lemma_read_rgb(a, 38, r, g, b, rest),
    }
}

proof fn lemma_read_bg(a: Attrs, c: Color, rest: Seq<Seq<u16>>)
    ensures
        sgr_from(a, color_params(c, 40) + rest, 0) == sgr_from(
            Attrs { bgcolor: c, ..a },
            rest,
            0,
        ),
{
    reveal(color_params);
    let x = Attrs { bgcolor: c, ..a };
    match c {
        Color::Default => lemma_read_one(a, plain(49), rest, x),
        Color::Idx(i) => if i < 8 {
            lemma_read_one(a, plain((40 + i) as u16), rest, x);
        } else if i < 16 {
            lemma_read_one(a, plain((92 + i) as u16), rest, x);
        } else {
            lemma_read_index(a, 48, i, rest);
        },
        Color::Rgb(r, g, b) => lemma_read_rgb(a, 48, r, g, b, rest),
    }
}

proof fn lemma_read_ul(a: Attrs, c: Color, rest: Seq<Seq<u16>>)
    ensures
        sgr_from(a, ulcolor_params(c) + rest, 0) == sgr_from(Attrs { ulcolor: c, ..a }, rest, 0),
{
    reveal(ulcolor_params);
    let x = Attrs { ulcolor: c, ..a };
    match c {
        Color::Default => lemma_read_one(a, plain(59), rest, x),
        Color::Idx(i) => lemma_read_index(a, 58, i, rest),
        Color::Rgb(r, g, b) => lemma_read_rgb(a, 58, r, g, b, rest),
    }
}

proof fn lemma_bit(m: u16)
    by (bit_vector)
    ensures
        (m & 0x4 != 0) ==> m & 0x4 == 0x4,
        (m & 0x8 != 0) ==> m & 0x8 == 0x8,
        (m & 0x10 != 0) ==> m & 0x10 == 0x10,
        (m & 0x100 != 0) ==> m & 0x100 == 0x100,
        (m & 0x200 != 0) ==> m & 0x200 == 0x200,
        (((m & 0xe0) >> 5) << 5) & 0xe0 == m & 0xe0,
        (m & 0xe0) >> 5 <= 7,
        (m & 0x1 != 0 && m & 0x2 == 0) ==> m & 0x3 == 0x1,
        (m & 0x1 == 0 && m & 0x2 != 0) ==> m & 0x3 == 0x2,
        (m & 0x1 == 0 && m & 0x2 == 0) ==> m & 0x3 == 0,
        (m & 0x1 != 0 && m & 0x2 != 0) ==> m & 0x3 == 0x3,
{
}

proof fn lemma_kept(m: u16, mask: u16, v: u16)
    by (bit_vector)
    requires
        m & mask == v,
    ensures
        (m & !mask) | v == m,
{
}

/// What parameters leave, from the first of them on.
#[verifier::opaque]
spec fn read(x: Attrs, p: Seq<Seq<u16>>) -> (Attrs, int) {
    sgr_from(x, p, 0)
}

proof fn lemma_fg_step(x: Attrs, a: Attrs, b: Attrs, rest: Seq<Seq<u16>>)
    requires
        x.fgcolor == b.fgcolor,
    ensures
        read(x, params_if(a.fgcolor != b.fgcolor, color_params(a.fgcolor, 30)) + rest)
            == read(Attrs { fgcolor: a.fgcolor, ..x }, rest),
{
    reveal(read);
    reveal(params_if);
    if a.fgcolor != b.fgcolor {
        lemma_read_fg(x, a.fgcolor, rest);
    } else {
        assert(Seq::<Seq<u16>>::empty() + rest =~= rest);
        assert(Attrs { fgcolor: a.fgcolor, ..x } == x);
    }
}

proof fn lemma_bg_step(x: Attrs, a: Attrs, b: Attrs, rest: Seq<Seq<u16>>)
    requires
        x.bgcolor == b.bgcolor,
    ensures
        read(x, params_if(a.bgcolor != b.bgcolor, color_params(a.bgcolor, 40)) + rest)
            == read(Attrs { bgcolor: a.bgcolor, ..x }, rest),
{
    reveal(read);
    reveal(params_if);
    if a.bgcolor != b.bgcolor {
        lemma_read_bg(x, a.bgcolor, rest);
    } else {
        assert(Seq::<Seq<u16>>::empty() + rest =~= rest);
        assert(Attrs { bgcolor: a.bgcolor, ..x } == x);
    }
}

proof fn lemma_ul_step(x: Attrs, a: Attrs, b: Attrs, rest: Seq<Seq<u16>>)
    requires
        x.ulcolor == b.ulcolor,
    ensures
        read(x, params_if(a.ulcolor != b.ulcolor, ulcolor_params(a.ulcolor)) + rest)
            == read(Attrs { ulcolor: a.ulcolor, ..x }, rest),
{
    reveal(read);
    reveal(params_if);
    if a.ulcolor != b.ulcolor {
        lemma_read_ul(x, a.ulcolor, rest);
    } else {
        assert(Seq::<Seq<u16>>::empty() + rest =~= rest);
        assert(Attrs { ulcolor: a.ulcolor, ..x } == x);
    }
}

proof fn lemma_intensity_step(x: Attrs, a: Attrs, b: Attrs, rest: Seq<Seq<u16>>)
    requires
        x.mode & TEXT_MODE_INTENSITY == b.mode & TEXT_MODE_INTENSITY,
        a.wf(),
        b.wf(),
    ensures
        read(
            x,
            params_if(
                a.is_bold() != b.is_bold() || a.is_dim() != b.is_dim(),
                intensity_params(a),
            ) + rest,
        ) == read(
            x.with_bits(TEXT_MODE_INTENSITY, a.mode & TEXT_MODE_INTENSITY),
            rest,
        ),
{
    reveal(read);
    reveal(params_if);
    reveal(intensity_params);
    lemma_bit(a.mode);
    lemma_bit(b.mode);
    let y = x.with_bits(TEXT_MODE_INTENSITY, a.mode & TEXT_MODE_INTENSITY);
    if a.is_bold() != b.is_bold() || a.is_dim() != b.is_dim() {
        lemma_read_one(x, intensity_params(a)[0], rest, y);
    } else {
        assert(Seq::<Seq<u16>>::empty() + rest =~= rest);
        lemma_kept(x.mode, TEXT_MODE_INTENSITY, a.mode & TEXT_MODE_INTENSITY);
        assert(y == x);
    }
}

proof fn lemma_underline_step(x: Attrs, a: Attrs, b: Attrs, rest: Seq<Seq<u16>>)
    requires
        x.mode & TEXT_MODE_UNDERLINE == b.mode & TEXT_MODE_UNDERLINE,
        a.underlined() <= 5,
    ensures
        read(
            x,
            params_if(a.underlined() != b.underlined(), underline_params(a.underlined())) + rest,
        ) == read(
            x.with_bits(TEXT_MODE_UNDERLINE, a.mode & TEXT_MODE_UNDERLINE),
            rest,
        ),
{
    reveal(read);
    reveal(params_if);
    reveal(underline_params);
    lemma_bit(a.mode);
    lemma_bit(b.mode);
    let style = a.underlined();
    let y = x.with_bits(TEXT_MODE_UNDERLINE, a.mode & TEXT_MODE_UNDERLINE);
    assert(style as u16 == (a.mode & 0xe0) >> 5);
    assert(y == x.with_underline(style));
    if a.underlined() != b.underlined() {
        lemma_read_one(x, underline_params(style)[0], rest, y);
        assert(underline_params(style) =~= seq![underline_params(style)[0]]);
    } else {
        assert(b.underlined() as u16 == (b.mode & 0xe0) >> 5);
        assert(Seq::<Seq<u16>>::empty() + rest =~= rest);
        lemma_kept(x.mode, TEXT_MODE_UNDERLINE, a.mode & TEXT_MODE_UNDERLINE);
        assert(y == x);
    }
}

proof fn lemma_flag_step(
    x: Attrs,
    a: Attrs,
    b: Attrs,
    mask: u16,
    set: u16,
    clear: u16,
    rest: Seq<Seq<u16>>,
)
    requires
        x.mode & mask == b.mode & mask,
        !takes_color(set),
        !takes_color(clear),
        simple_sgr(x, set) == Some(x.with_flag(mask, true)),
        simple_sgr(x, clear) == Some(x.with_flag(mask, false)),
        a.mode & mask != 0 ==> a.mode & mask == mask,
        b.mode & mask != 0 ==> b.mode & mask == mask,
    ensures
        read(
            x,
            params_if(bits_differ(a, b, mask), flag_params(a.mode & mask != 0, set, clear)) + rest,
        ) == read(x.with_bits(mask, a.mode & mask), rest),
{
    reveal(read);
    reveal(params_if);
    reveal(flag_params);
    let y = x.with_bits(mask, a.mode & mask);
    if bits_differ(a, b, mask) {
        lemma_read_one(x, flag_params(a.mode & mask != 0, set, clear)[0], rest, y);
    } else {
        assert(Seq::<Seq<u16>>::empty() + rest =~= rest);
        lemma_kept(x.mode, mask, a.mode & mask);
        assert(y == x);
    }
}

proof fn lemma_flag_steps(x: Attrs, a: Attrs, b: Attrs, rest: Seq<Seq<u16>>)
    ensures
        x.mode & TEXT_MODE_ITALIC == b.mode & TEXT_MODE_ITALIC ==> read(
            x,
            params_if(
                bits_differ(a, b, TEXT_MODE_ITALIC),
                flag_params(a.mode & TEXT_MODE_ITALIC != 0, 3, 23),
            ) + rest,
        ) == read(x.with_bits(TEXT_MODE_ITALIC, a.mode & TEXT_MODE_ITALIC), rest),
        x.mode & TEXT_MODE_STRIKETHROUGH == b.mode & TEXT_MODE_STRIKETHROUGH ==> read(
            x,
            params_if(
                bits_differ(a, b, TEXT_MODE_STRIKETHROUGH),
                flag_params(a.mode & TEXT_MODE_STRIKETHROUGH != 0, 9, 29),
            ) + rest,
        ) == read(x.with_bits(TEXT_MODE_STRIKETHROUGH, a.mode & TEXT_MODE_STRIKETHROUGH), rest),
        x.mode & TEXT_MODE_INVERSE == b.mode & TEXT_MODE_INVERSE ==> read(
            x,
            params_if(
                bits_differ(a, b, TEXT_MODE_INVERSE),
                flag_params(a.mode & TEXT_MODE_INVERSE != 0, 7, 27),
            ) + rest,
        ) == read(x.with_bits(TEXT_MODE_INVERSE, a.mode & TEXT_MODE_INVERSE), rest),
        x.mode & TEXT_MODE_CONCEALED == b.mode & TEXT_MODE_CONCEALED ==> read(
            x,
            params_if(
                bits_differ(a, b, TEXT_MODE_CONCEALED),
                flag_params(a.mode & TEXT_MODE_CONCEALED != 0, 8, 28),
            ) + rest,
        ) == read(x.with_bits(TEXT_MODE_CONCEALED, a.mode & TEXT_MODE_CONCEALED), rest),
        x.mode & TEXT_MODE_BLINK == b.mode & TEXT_MODE_BLINK ==> read(
            x,
            params_if(
                bits_differ(a, b, TEXT_MODE_BLINK),
                flag_params(a.mode & TEXT_MODE_BLINK != 0, 5, 25),
            ) + rest,
        ) == read(x.with_bits(TEXT_MODE_BLINK, a.mode & TEXT_MODE_BLINK), rest),
{
    lemma_bit(a.mode);
    lemma_bit(b.mode);
    if x.mode & TEXT_MODE_ITALIC == b.mode & TEXT_MODE_ITALIC {
        lemma_flag_step(x, a, b, TEXT_MODE_ITALIC, 3, 23, rest);
    }
    if x.mode & TEXT_MODE_STRIKETHROUGH == b.mode & TEXT_MODE_STRIKETHROUGH {
        lemma_flag_step(x, a, b, TEXT_MODE_STRIKETHROUGH, 9, 29, rest);
    }
    if x.mode & TEXT_MODE_INVERSE == b.mode & TEXT_MODE_INVERSE {
        lemma_flag_step(x, a, b, TEXT_MODE_INVERSE, 7, 27, rest);
    }
    if x.mode & TEXT_MODE_CONCEALED == b.mode & TEXT_MODE_CONCEALED {
        lemma_flag_step(x, a, b, TEXT_MODE_CONCEALED, 8, 28, rest);
    }
    if x.mode & TEXT_MODE_BLINK == b.mode & TEXT_MODE_BLINK {
        lemma_flag_step(x, a, b, TEXT_MODE_BLINK, 5, 25, rest);
    }
}

/// The bits of `a` where `seen` has them, those of `b` elsewhere.
spec fn mixed(b: u16, a: u16, seen: u16) -> u16 {
    (b & !seen) | (a & seen)
}

proof fn lemma_mixed(b: u16, a: u16, seen: u16, mask: u16, next: u16)
    by (bit_vector)
    requires
        seen & mask == 0,
        next == seen | mask,
    ensures
        mixed(b, a, seen) & mask == b & mask,
        (mixed(b, a, seen) & !mask) | (a & mask) == mixed(b, a, next),
{
}

proof fn lemma_mixed_ends(b: u16, a: u16)
    by (bit_vector)
    requires
        a < 0x400,
        b < 0x400,
    ensures
        mixed(b, a, 0) == b,
        mixed(b, a, 0x3ff) == a,
{
}

proof fn lemma_masks()
    by (bit_vector)
    ensures
        0u16 & 0x3u16 == 0,
        0u16 | 0x3u16 == 0x3u16,
        0x3u16 & 0x4u16 == 0,
        0x3u16 | 0x4u16 == 0x7u16,
        0x7u16 & 0xe0u16 == 0,
        0x7u16 | 0xe0u16 == 0xe7u16,
        0xe7u16 & 0x8u16 == 0,
        0xe7u16 | 0x8u16 == 0xefu16,
        0xefu16 & 0x10u16 == 0,
        0xefu16 | 0x10u16 == 0xffu16,
        0xffu16 & 0x100u16 == 0,
        0xffu16 | 0x100u16 == 0x1ffu16,
        0x1ffu16 & 0x200u16 == 0,
        0x1ffu16 | 0x200u16 == 0x3ffu16,
{
}

/// The parameters for a difference lead from the one set of attributes to the other.
proof fn lemma_params_lead(a: Attrs, b: Attrs)
    requires
        proper(a),
        proper(b),
    ensures
        read(b, sgr_params(a, b)) == (Attrs { link: b.link, ..a }, 0int),
{
    lemma_masks();
    lemma_mixed_ends(b.mode, a.mode);
    lemma_mixed(b.mode, a.mode, 0, 0x3, 0x3);
    lemma_mixed(b.mode, a.mode, 0x3, 0x4, 0x7);
    lemma_mixed(b.mode, a.mode, 0x7, 0xe0, 0xe7);
    lemma_mixed(b.mode, a.mode, 0xe7, 0x8, 0xef);
    lemma_mixed(b.mode, a.mode, 0xef, 0x10, 0xff);
    lemma_mixed(b.mode, a.mode, 0xff, 0x100, 0x1ff);
    lemma_mixed(b.mode, a.mode, 0x1ff, 0x200, 0x3ff);
    let r10 = Seq::<Seq<u16>>::empty();
    let s10 = params_if(
        bits_differ(a, b, TEXT_MODE_BLINK),
        flag_params(a.mode & TEXT_MODE_BLINK != 0, 5, 25),
    );
    let r9 = s10;
    let r8 = params_if(
        bits_differ(a, b, TEXT_MODE_CONCEALED),
        flag_params(a.mode & TEXT_MODE_CONCEALED != 0, 8, 28),
    ) + r9;
    let r7 = params_if(
        bits_differ(a, b, TEXT_MODE_INVERSE),
        flag_params(a.mode & TEXT_MODE_INVERSE != 0, 7, 27),
    ) + r8;
    let r6 = params_if(a.ulcolor != b.ulcolor, ulcolor_params(a.ulcolor)) + r7;
    let r5 = params_if(
        bits_differ(a, b, TEXT_MODE_STRIKETHROUGH),
        flag_params(a.mode & TEXT_MODE_STRIKETHROUGH != 0, 9, 29),
    ) + r6;
    let r4 = params_if(a.underlined() != b.underlined(), underline_params(a.underlined())) + r5;
    let r3 = params_if(
        bits_differ(a, b, TEXT_MODE_ITALIC),
        flag_params(a.mode & TEXT_MODE_ITALIC != 0, 3, 23),
    ) + r4;
    let r2 = params_if(
        a.is_bold() != b.is_bold() || a.is_dim() != b.is_dim(),
        intensity_params(a),
    ) + r3;
    let r1 = params_if(a.bgcolor != b.bgcolor, color_params(a.bgcolor, 40)) + r2;
    let x1 = Attrs { fgcolor: a.fgcolor, ..b };
    let x2 = Attrs { bgcolor: a.bgcolor, ..x1 };
    let x3 = x2.with_bits(TEXT_MODE_INTENSITY, a.mode & TEXT_MODE_INTENSITY);
    let x4 = x3.with_bits(TEXT_MODE_ITALIC, a.mode & TEXT_MODE_ITALIC);
    let x5 = x4.with_bits(TEXT_MODE_UNDERLINE, a.mode & TEXT_MODE_UNDERLINE);
    let x6 = x5.with_bits(TEXT_MODE_STRIKETHROUGH, a.mode & TEXT_MODE_STRIKETHROUGH);
    let x7 = Attrs { ulcolor: a.ulcolor, ..x6 };
    let x8 = x7.with_bits(TEXT_MODE_INVERSE, a.mode & TEXT_MODE_INVERSE);
    let x9 = x8.with_bits(TEXT_MODE_CONCEALED, a.mode & TEXT_MODE_CONCEALED);
    let x10 = x9.with_bits(TEXT_MODE_BLINK, a.mode & TEXT_MODE_BLINK);
    assert(x2.mode == mixed(b.mode, a.mode, 0));
    assert(x3.mode == mixed(b.mode, a.mode, 0x3));
    assert(x4.mode == mixed(b.mode, a.mode, 0x7));
    assert(x5.mode == mixed(b.mode, a.mode, 0xe7));
    assert(x7.mode == mixed(b.mode, a.mode, 0xef));
    assert(x8.mode == mixed(b.mode, a.mode, 0xff));
    assert(x9.mode == mixed(b.mode, a.mode, 0x1ff));
    assert(x10.mode == a.mode);
    lemma_fg_step(b, a, b, r1);
    lemma_bg_step(x1, a, b, r2);
    lemma_intensity_step(x2, a, b, r3);
    lemma_flag_steps(x3, a, b, r4);
    lemma_underline_step(x4, a, b, r5);
    lemma_flag_steps(x5, a, b, r6);
    lemma_ul_step(x6, a, b, r7);
    lemma_flag_steps(x7, a, b, r8);
    lemma_flag_steps(x8, a, b, r9);
    lemma_flag_steps(x9, a, b, r10);
    assert(s10 + r10 =~= s10);
    assert(read(x10, r10) == (x10, 0int)) by {
        reveal(read);
    }
    assert(x10 == Attrs { link: b.link, ..a });
}

/// What is written to go from one set of attributes to another, read again, leads there: the
/// parameters of the sequence give the new attributes, and all of them are understood. Where
/// no sequence is written, the attributes are the same. The hyperlink is not among what these
/// sequences set.
pub proof fn law_written_attributes_read_back(a: Attrs, b: Attrs)
    requires
        proper(a),
        proper(b),
    ensures
        match written_params(a, b) {
            Some(p) => sgr(b, p) == (Attrs { link: b.link, ..a }, 0int),
            None => a == (Attrs { link: a.link, ..b }),
        },
{
    lemma_params_lead(a, b);
    reveal(read);
    if !(a != b && a == no_attrs()) && sgr_params(a, b).len() == 0 {
        assert(sgr_from(b, sgr_params(a, b), 0) == (b, 0int));
    }
}

proof fn lemma_intensity_bits(m: u16, v: u16)
    by (bit_vector)
    requires
        m < 0x400,
        v <= 2,
    ensures
        (m & !0x3u16) | v < 0x400,
        ((m & !0x3u16) | v) & 0x1 == 0 || ((m & !0x3u16) | v) & 0x2 == 0,
        ((m & !0x3u16) | v) & 0xe0 == m & 0xe0,
{
}

proof fn lemma_flag_bits(m: u16, mask: u16, v: u16)
    by (bit_vector)
    requires
        m < 0x400,
        mask == 0x4 || mask == 0x8 || mask == 0x10 || mask == 0x100 || mask == 0x200,
        v == 0 || v == mask,
    ensures
        (m & !mask) | v < 0x400,
        ((m & !mask) | v) & 0x1 == m & 0x1,
        ((m & !mask) | v) & 0x2 == m & 0x2,
        ((m & !mask) | v) & 0xe0 == m & 0xe0,
{
}

pub(crate) proof fn lemma_underline_bits(m: u16, style: u16)
    by (bit_vector)
    requires
        m < 0x400,
        style <= 5,
    ensures
        (m & !0xe0u16) | ((style << 5) & 0xe0) < 0x400,
        ((m & !0xe0u16) | ((style << 5) & 0xe0)) & 0x1 == m & 0x1,
        ((m & !0xe0u16) | ((style << 5) & 0xe0)) & 0x2 == m & 0x2,
        (((m & !0xe0u16) | ((style << 5) & 0xe0)) & 0xe0) >> 5 == style,
{
}

proof fn lemma_none_proper()
    by (bit_vector)
    ensures
        0u16 & 0x1 == 0,
        0u16 & 0x2 == 0,
        (0u16 & 0xe0) >> 5 == 0,
{
}

pub(crate) proof fn lemma_one_keeps_proper(a: Attrs, e: Seq<u16>)
    requires
        proper(a),
    ensures
        match one_sgr(a, e) {
            Some(x) => proper(x),
            None => true,
        },
{
    let m = a.mode;
    lemma_none_proper();
    lemma_intensity_bits(m, 0);
    lemma_intensity_bits(m, 1);
    lemma_intensity_bits(m, 2);
    lemma_flag_bits(m, 0x4, 0x4);
    lemma_flag_bits(m, 0x4, 0);
    lemma_flag_bits(m, 0x8, 0x8);
    lemma_flag_bits(m, 0x8, 0);
    lemma_flag_bits(m, 0x10, 0x10);
    lemma_flag_bits(m, 0x10, 0);
    lemma_flag_bits(m, 0x100, 0x100);
    lemma_flag_bits(m, 0x100, 0);
    lemma_flag_bits(m, 0x200, 0x200);
    lemma_flag_bits(m, 0x200, 0);
    lemma_underline_bits(m, 0);
    lemma_underline_bits(m, 1);
    lemma_underline_bits(m, 2);
    if e.len() == 2 && e[1] <= 5 {
        lemma_underline_bits(m, e[1]);
    }
}

proof fn lemma_reading_keeps_proper(a: Attrs, p: Seq<Seq<u16>>, i: int)
    requires
        proper(a),
        0 <= i,
    ensures
        proper(sgr_from(a, p, i).0),
    decreases p.len() - i,
{
    if i < p.len() {
        if p[i].len() == 1 && takes_color(p[i][0]) {
            match following_color(p, i + 1) {
                Some((c, k)) => {
                    assert(with_color(a, p[i][0], c).mode == a.mode);
                    lemma_reading_keeps_proper(with_color(a, p[i][0], c), p, i + 1 + k);
                },
                None => {},
            }
        } else {
            lemma_one_keeps_proper(a, p[i]);
            match one_sgr(a, p[i]) {
                Some(x) => lemma_reading_keeps_proper(x, p, i + 1),
                None => lemma_reading_keeps_proper(a, p, i + 1),
            }
        }
    }
}

/// Plain attributes are proper, and whatever parameters are read leave proper attributes
/// proper: these are all the attributes that a terminal comes to hold.
pub proof fn law_read_attributes_are_proper(a: Attrs, p: Seq<Seq<u16>>)
    ensures
        proper(no_attrs()),
        proper(a) ==> proper(sgr(a, p).0),
{
    lemma_none_proper();
    if proper(a) {
        lemma_reading_keeps_proper(a, p, 0);
    }
}

} // verus!
