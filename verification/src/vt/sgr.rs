//! The attributes that a sequence of parameters sets.
use crate::vt::attrs::{
    Attrs, Color, TEXT_MODE_BLINK, TEXT_MODE_BOLD, TEXT_MODE_CONCEALED, TEXT_MODE_DIM,
    TEXT_MODE_INTENSITY, TEXT_MODE_INVERSE, TEXT_MODE_ITALIC, TEXT_MODE_STRIKETHROUGH,
};
use crate::vt::perform::param_views;
use vstd::prelude::*;

verus! {

/// A parameter without parts, where it is one.
pub open spec fn single(p: Seq<Seq<u16>>, i: int) -> Option<u16> {
    if 0 <= i < p.len() && p[i].len() == 1 {
        Some(p[i][0])
    } else {
        None
    }
}

/// A parameter as a byte, where it is one.
pub open spec fn byte_param(p: Seq<Seq<u16>>, i: int) -> Option<u8> {
    match single(p, i) {
        Some(n) => as_byte(n),
        None => None,
    }
}

/// A number as a byte.
pub open spec fn as_byte(n: u16) -> Option<u8> {
    if n < 256 {
        Some(n as u8)
    } else {
        None
    }
}

/// Whether a number is one of those behind which a colour follows.
pub open spec fn takes_color(n: u16) -> bool {
    n == 38 || n == 48 || n == 58
}

/// The colour that a number names set: of the text, of the background, or of the underline.
pub open spec fn with_color(a: Attrs, which: u16, c: Color) -> Attrs {
    if which == 38 {
        Attrs { fgcolor: c, ..a }
    } else if which == 48 {
        Attrs { bgcolor: c, ..a }
    } else {
        Attrs { ulcolor: c, ..a }
    }
}

/// What one number sets. A number of zero takes everything back but the hyperlink.
pub open spec fn simple_sgr(a: Attrs, n: u16) -> Option<Attrs> {
    if n == 0 {
        Some(Attrs { link: a.link, ..crate::vt::attrs::no_attrs() })
    } else if n == 1 {
        Some(a.with_bits(TEXT_MODE_INTENSITY, TEXT_MODE_BOLD))
    } else if n == 2 {
        Some(a.with_bits(TEXT_MODE_INTENSITY, TEXT_MODE_DIM))
    } else if n == 3 {
        Some(a.with_flag(TEXT_MODE_ITALIC, true))
    } else if n == 4 {
        Some(a.with_underline(1))
    } else if n == 5 || n == 6 {
        Some(a.with_flag(TEXT_MODE_BLINK, true))
    } else if n == 7 {
        Some(a.with_flag(TEXT_MODE_INVERSE, true))
    } else if n == 8 {
        Some(a.with_flag(TEXT_MODE_CONCEALED, true))
    } else if n == 9 {
        Some(a.with_flag(TEXT_MODE_STRIKETHROUGH, true))
    } else if n == 21 {
        Some(a.with_underline(2))
    } else if n == 22 {
        Some(a.with_bits(TEXT_MODE_INTENSITY, 0))
    } else if n == 23 {
        Some(a.with_flag(TEXT_MODE_ITALIC, false))
    } else if n == 24 {
        Some(a.with_underline(0))
    } else if n == 25 {
        Some(a.with_flag(TEXT_MODE_BLINK, false))
    } else if n == 27 {
        Some(a.with_flag(TEXT_MODE_INVERSE, false))
    } else if n == 28 {
        Some(a.with_flag(TEXT_MODE_CONCEALED, false))
    } else if n == 29 {
        Some(a.with_flag(TEXT_MODE_STRIKETHROUGH, false))
    } else if 30 <= n <= 37 {
        Some(Attrs { fgcolor: Color::Idx((n - 30) as u8), ..a })
    } else if n == 39 {
        Some(Attrs { fgcolor: Color::Default, ..a })
    } else if 40 <= n <= 47 {
        Some(Attrs { bgcolor: Color::Idx((n - 40) as u8), ..a })
    } else if n == 49 {
        Some(Attrs { bgcolor: Color::Default, ..a })
    } else if n == 59 {
        Some(Attrs { ulcolor: Color::Default, ..a })
    } else if 90 <= n <= 97 {
        Some(Attrs { fgcolor: Color::Idx((n - 82) as u8), ..a })
    } else if 100 <= n <= 107 {
        Some(Attrs { bgcolor: Color::Idx((n - 92) as u8), ..a })
    } else {
        None
    }
}

/// A colour in the parts of one parameter: `5` and an index, or `2`, a colour space that may
/// be left out, and red, green and blue.
pub open spec fn color_parts(e: Seq<u16>) -> Option<Color> {
    if e.len() == 3 && e[1] == 5 {
        match as_byte(e[2]) {
            Some(i) => Some(Color::Idx(i)),
            None => None,
        }
    } else if (e.len() == 5 || e.len() == 6) && e[1] == 2 {
        let k = e.len() - 3;
        match (as_byte(e[k]), as_byte(e[k + 1]), as_byte(e[k + 2])) {
            (Some(r), Some(g), Some(b)) => Some(Color::Rgb(r, g, b)),
            _ => None,
        }
    } else {
        None
    }
}

/// What one parameter sets.
pub open spec fn one_sgr(a: Attrs, e: Seq<u16>) -> Option<Attrs> {
    if e.len() == 1 {
        simple_sgr(a, e[0])
    } else if e.len() == 2 && e[0] == 4 && e[1] <= 5 {
        Some(a.with_underline(e[1] as u8))
    } else if e.len() >= 3 && takes_color(e[0]) {
        match color_parts(e) {
            Some(c) => Some(with_color(a, e[0], c)),
            None => None,
        }
    } else {
        None
    }
}

/// The colour that the parameters from `i` on spell, and how many they are.
pub open spec fn following_color(p: Seq<Seq<u16>>, i: int) -> Option<(Color, int)> {
    if single(p, i) == Some(5u16) {
        match byte_param(p, i + 1) {
            Some(n) => Some((Color::Idx(n), 2)),
            None => None,
        }
    } else if single(p, i) == Some(2u16) {
        match (byte_param(p, i + 1), byte_param(p, i + 2), byte_param(p, i + 3)) {
            (Some(r), Some(g), Some(b)) => Some((Color::Rgb(r, g, b), 4)),
            _ => None,
        }
    } else {
        None
    }
}

/// The attributes after the parameters from `i` on, and how many of them are not understood.
/// A colour that is not spelled out ends the list.
pub open spec fn sgr_from(a: Attrs, p: Seq<Seq<u16>>, i: int) -> (Attrs, int)
    decreases p.len() - i,
{
    if !(0 <= i < p.len()) {
        (a, 0)
    } else if p[i].len() == 1 && takes_color(p[i][0]) {
        match following_color(p, i + 1) {
            Some((c, k)) => if k > 0 {
                sgr_from(with_color(a, p[i][0], c), p, i + 1 + k)
            } else {
                (a, 0)
            },
            None => (
                a,
                if i + 1 < p.len() && single(p, i + 1) != Some(2u16) && single(p, i + 1) != Some(
                    5u16,
                ) {
                    1
                } else {
                    0
                },
            ),
        }
    } else {
        match one_sgr(a, p[i]) {
            Some(b) => sgr_from(b, p, i + 1),
            None => {
                let rest = sgr_from(a, p, i + 1);
                (rest.0, rest.1 + 1)
            },
        }
    }
}

/// The attributes after a sequence of parameters; none at all is a zero.
pub open spec fn sgr(a: Attrs, p: Seq<Seq<u16>>) -> (Attrs, int) {
    if p.len() == 0 {
        (Attrs { link: a.link, ..crate::vt::attrs::no_attrs() }, 0)
    } else {
        sgr_from(a, p, 0)
    }
}

fn to_byte(n: u16) -> (r: Option<u8>)
    ensures
        r == as_byte(n),
{
    if n < 256 {
        Some(n as u8)
    } else {
        None
    }
}

fn get_single(p: &Vec<Vec<u16>>, i: usize) -> (r: Option<u16>)
    ensures
        r == single(param_views(p@), i as int),
{
    if i < p.len() && p[i].len() == 1 {
        Some(p[i][0])
    } else {
        None
    }
}

fn get_byte_param(p: &Vec<Vec<u16>>, i: usize) -> (r: Option<u8>)
    ensures
        r == byte_param(param_views(p@), i as int),
{
    match get_single(p, i) {
        Some(n) => to_byte(n),
        None => None,
    }
}

fn set_color(a: Attrs, which: u16, c: Color) -> (r: Attrs)
    ensures
        r == with_color(a, which, c),
{
    if which == 38 {
        Attrs { fgcolor: c, ..a }
    } else if which == 48 {
        Attrs { bgcolor: c, ..a }
    } else {
        Attrs { ulcolor: c, ..a }
    }
}

fn cleared(a: Attrs) -> (r: Attrs)
    ensures
        r == (Attrs { link: a.link, ..crate::vt::attrs::no_attrs() }),
{
    let mut b = Attrs::default();
    b.link = a.link;
    b
}

fn set_simple(a: Attrs, n: u16) -> (r: Option<Attrs>)
    ensures
        r == simple_sgr(a, n),
{
    let mut b = a;
    match n {
        0 => {
            return Some(cleared(a));
        },
        1 => b.set_bold(),
        2 => b.set_dim(),
        3 => b.set_italic(true),
        4 => b.set_underline_style(1),
        5 | 6 => b.set_blink(true),
        7 => b.set_inverse(true),
        8 => b.set_concealed(true),
        9 => b.set_strikethrough(true),
        21 => b.set_underline_style(2),
        22 => b.set_normal_intensity(),
        23 => b.set_italic(false),
        24 => b.set_underline_style(0),
        25 => b.set_blink(false),
        27 => b.set_inverse(false),
        28 => b.set_concealed(false),
        29 => b.set_strikethrough(false),
        39 => {
            b.fgcolor = Color::Default;
        },
        49 => {
            b.bgcolor = Color::Default;
        },
        59 => {
            b.ulcolor = Color::Default;
        },
        _ => {
            if 30 <= n && n <= 37 {
                b.fgcolor = Color::Idx((n - 30) as u8);
            } else if 40 <= n && n <= 47 {
                b.bgcolor = Color::Idx((n - 40) as u8);
            } else if 90 <= n && n <= 97 {
                b.fgcolor = Color::Idx((n - 82) as u8);
            } else if 100 <= n && n <= 107 {
                b.bgcolor = Color::Idx((n - 92) as u8);
            } else {
                return None;
            }
        },
    }
    Some(b)
}

fn read_color_parts(e: &Vec<u16>) -> (r: Option<Color>)
    ensures
        r == color_parts(e@),
{
    if e.len() == 3 && e[1] == 5 {
        match to_byte(e[2]) {
            Some(i) => Some(Color::Idx(i)),
            None => None,
        }
    } else if (e.len() == 5 || e.len() == 6) && e[1] == 2 {
        let k: usize = e.len() - 3;
        match (to_byte(e[k]), to_byte(e[k + 1]), to_byte(e[k + 2])) {
            (Some(r), Some(g), Some(b)) => Some(Color::Rgb(r, g, b)),
            _ => None,
        }
    } else {
        None
    }
}

fn set_one(a: Attrs, e: &Vec<u16>) -> (r: Option<Attrs>)
    ensures
        r == one_sgr(a, e@),
{
    if e.len() == 1 {
        set_simple(a, e[0])
    } else if e.len() == 2 && e[0] == 4 && e[1] <= 5 {
        let mut b = a;
        b.set_underline_style(e[1] as u8);
        Some(b)
    } else if e.len() >= 3 && (e[0] == 38 || e[0] == 48 || e[0] == 58) {
        match read_color_parts(e) {
            Some(c) => Some(set_color(a, e[0], c)),
            None => None,
        }
    } else {
        None
    }
}

fn read_following(p: &Vec<Vec<u16>>, i: usize) -> (r: Option<(Color, usize)>)
    requires
        i <= p@.len(),
    ensures
        r is Some <==> following_color(param_views(p@), i as int) is Some,
        r matches Some((c, k)) ==> following_color(param_views(p@), i as int) == Some((c, k as int))
            && 2 <= k <= 4 && i + k <= p@.len(),
{
    if p.len() - i < 2 {
        return None;
    }
    match get_single(p, i) {
        Some(n) => if n == 5 {
            match get_byte_param(p, i + 1) {
                Some(b) => Some((Color::Idx(b), 2)),
                None => None,
            }
        } else if n == 2 {
            if p.len() - i < 4 {
                return None;
            }
            match (get_byte_param(p, i + 1), get_byte_param(p, i + 2), get_byte_param(p, i + 3)) {
                (Some(r), Some(g), Some(b)) => Some((Color::Rgb(r, g, b), 4)),
                _ => None,
            }
        } else {
            None
        },
        None => None,
    }
}

/// Set what the parameters name, and count those that are not understood.
pub fn apply_sgr(a: Attrs, p: &Vec<Vec<u16>>) -> (r: (Attrs, usize))
    ensures
        (r.0, r.1 as int) == sgr(a, param_views(p@)),
{
    if p.len() == 0 {
        return (cleared(a), 0);
    }
    let ghost all = param_views(p@);
    let mut b = a;
    let mut missed: usize = 0;
    let mut i: usize = 0;
    while i < p.len()
        invariant
            i <= p@.len(),
            missed <= i,
            all == param_views(p@),
            sgr_from(b, all, i as int).0 == sgr_from(a, all, 0).0,
            missed + sgr_from(b, all, i as int).1 == sgr_from(a, all, 0).1,
        decreases p@.len() - i,
    {
        assert(all[i as int] == p@[i as int]@);
        if p[i].len() == 1 && (p[i][0] == 38 || p[i][0] == 48 || p[i][0] == 58) {
            match read_following(p, i + 1) {
                Some((c, k)) => {
                    b = set_color(b, p[i][0], c);
                    i = i + 1 + k;
                },
                None => {
                    let next = get_single(p, i + 1);
                    if i + 1 < p.len() && next != Some(2u16) && next != Some(5u16) {
                        missed += 1;
                    }
                    return (b, missed);
                },
            }
        } else {
            match set_one(b, &p[i]) {
                Some(x) => {
                    b = x;
                },
                None => {
                    missed += 1;
                },
            }
            i += 1;
        }
    }
    (b, missed)
}

} // verus!
