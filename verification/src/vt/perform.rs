//! What characters, control bytes and control sequences ask of a screen.
//!
//! A parser of escape sequences hands over printed characters, control bytes, and ESC, CSI
//! and OSC sequences. Here each is turned into what it asks for; who owns the screen does it.
use crate::text::{begins, copy_bytes, find_byte, index_of, push_bytes, same_bytes, starts_with};
use vstd::prelude::*;
use vstd::slice::slice_subrange;
use vstd::string::*;

verus! {

/// What a character, a control byte, or an ESC or CSI sequence asks for.
#[derive(Debug, Clone, Copy, PartialEq, Eq, Structural)]
pub enum Action {
    /// Nothing: it is understood and has no effect on the screen.
    Ignore,
    Text(char),
    Bs,
    Tab,
    Lf,
    Vt,
    Ff,
    Cr,
    Decsc,
    Decrc,
    Deckpam,
    Deckpnm,
    Hts,
    Ri,
    Ris,
    Ich(u16),
    Cuu(u16),
    Cud(u16),
    Cuf(u16),
    Cub(u16),
    Cnl(u16),
    Cpl(u16),
    Cha(u16),
    Cup(u16, u16),
    Cht(u16),
    Ed(u16),
    El(u16),
    Il(u16),
    Dl(u16),
    Dch(u16),
    Su(u16),
    Sd(u16),
    Ech(u16),
    Cbt(u16),
    Rep(u16),
    Vpa(u16),
    Tbc(u16),
    /// Set modes; the parameters name them.
    Sm,
    /// Reset modes; the parameters name them.
    Rm,
    /// Set attributes; the parameters name them.
    Sgr,
    Decstbm(u16, u16),
    Scosc,
    Scorc,
    TitlePush,
    TitlePop,
    Decsed(u16),
    Decsel(u16),
    /// Set private modes; the parameters name them.
    Decset,
    /// Reset private modes; the parameters name them.
    Decrst,
    Decscusr(u8),
    Decstr,
    AudibleBell,
    VisualBell,
    /// A new size in rows and columns is asked for.
    Resize(u16, u16),
    UnhandledChar(char),
    UnhandledControl(u8),
    UnhandledEscape(Option<u8>, Option<u8>, u8),
    UnhandledCsi(Option<u8>, Option<u8>, char),
}

/// The models of parameters.
pub open spec fn param_views(p: Seq<Vec<u16>>) -> Seq<Seq<u16>> {
    Seq::new(p.len(), |i: int| p[i]@)
}

/// The `i`-th parameter, where it is there.
pub open spec fn opt_param(p: Seq<Seq<u16>>, i: int) -> Option<u16> {
    if 0 <= i < p.len() && p[i].len() > 0 {
        Some(p[i][0])
    } else {
        None
    }
}

/// The `i`-th parameter; `default` where it is missing or zero.
pub open spec fn param_or(p: Seq<Seq<u16>>, i: int, default: u16) -> u16 {
    match opt_param(p, i) {
        Some(v) => if v == 0 {
            default
        } else {
            v
        },
        None => default,
    }
}

fn read_param(p: &Vec<Vec<u16>>, i: usize) -> (r: Option<u16>)
    ensures
        r == opt_param(param_views(p@), i as int),
{
    if i < p.len() && p[i].len() > 0 {
        Some(p[i][0])
    } else {
        None
    }
}

/// The first parameter; `default` where it is missing or zero.
pub fn canonicalize_params_1(p: &Vec<Vec<u16>>, default: u16) -> (r: u16)
    ensures
        r == param_or(param_views(p@), 0, default),
{
    param_at(p, 0, default)
}

fn param_at(p: &Vec<Vec<u16>>, i: usize, default: u16) -> (r: u16)
    ensures
        r == param_or(param_views(p@), i as int, default),
{
    match read_param(p, i) {
        Some(v) => if v == 0 {
            default
        } else {
            v
        },
        None => default,
    }
}

/// The first two parameters; the defaults where they are missing or zero.
pub fn canonicalize_params_2(p: &Vec<Vec<u16>>, default1: u16, default2: u16) -> (r: (u16, u16))
    ensures
        r == (param_or(param_views(p@), 0, default1), param_or(param_views(p@), 1, default2)),
{
    (param_at(p, 0, default1), param_at(p, 1, default2))
}

/// The margins that the first two parameters name; the whole screen of `rows` rows where
/// they are missing or zero.
pub fn canonicalize_params_decstbm(p: &Vec<Vec<u16>>, rows: u16) -> (r: (u16, u16))
    ensures
        r == (param_or(param_views(p@), 0, 1), param_or(param_views(p@), 1, rows)),
{
    canonicalize_params_2(p, 1, rows)
}

/// A printed character: the replacement character and the C1 controls are not printed.
pub open spec fn printed(c: char) -> Action {
    if c as u32 == 0xfffd || 0x80 <= (c as u32) < 0xa0 {
        Action::UnhandledChar(c)
    } else {
        Action::Text(c)
    }
}

/// What a printed character asks for.
pub fn print(c: char) -> (r: Action)
    ensures
        r == printed(c),
{
    let u: u32 = c as u32;
    if u == 0xfffd || (0x80 <= u && u < 0xa0) {
        Action::UnhandledChar(c)
    } else {
        Action::Text(c)
    }
}

/// A control byte. Shift in and shift out have no effect.
pub open spec fn executed(b: u8) -> Action {
    if b == 7 {
        Action::AudibleBell
    } else if b == 8 {
        Action::Bs
    } else if b == 9 {
        Action::Tab
    } else if b == 10 {
        Action::Lf
    } else if b == 11 {
        Action::Vt
    } else if b == 12 {
        Action::Ff
    } else if b == 13 {
        Action::Cr
    } else if b == 14 || b == 15 {
        Action::Ignore
    } else {
        Action::UnhandledControl(b)
    }
}

/// What a control byte asks for.
pub fn execute(b: u8) -> (r: Action)
    ensures
        r == executed(b),
{
    match b {
        7 => Action::AudibleBell,
        8 => Action::Bs,
        9 => Action::Tab,
        10 => Action::Lf,
        11 => Action::Vt,
        12 => Action::Ff,
        13 => Action::Cr,
        14 => Action::Ignore,
        15 => Action::Ignore,
        _ => Action::UnhandledControl(b),
    }
}

/// The byte at `i`.
pub open spec fn byte_at(s: Seq<u8>, i: int) -> Option<u8> {
    if 0 <= i < s.len() {
        Some(s[i])
    } else {
        None
    }
}

fn get_byte(s: &[u8], i: usize) -> (r: Option<u8>)
    ensures
        r == byte_at(s@, i as int),
{
    if i < s.len() {
        Some(s[i])
    } else {
        None
    }
}

/// An ESC sequence. The designation of US-ASCII and the string terminator have no effect.
pub open spec fn escaped(intermediates: Seq<u8>, b: u8) -> Action {
    if intermediates.len() > 0 {
        if (intermediates[0] == 0x28 || intermediates[0] == 0x29) && b == 0x42 {
            Action::Ignore
        } else {
            Action::UnhandledEscape(byte_at(intermediates, 0), byte_at(intermediates, 1), b)
        }
    } else if b == 0x37 {
        Action::Decsc
    } else if b == 0x38 {
        Action::Decrc
    } else if b == 0x3d {
        Action::Deckpam
    } else if b == 0x3e {
        Action::Deckpnm
    } else if b == 0x48 {
        Action::Hts
    } else if b == 0x4d {
        Action::Ri
    } else if b == 0x5c {
        Action::Ignore
    } else if b == 0x63 {
        Action::Ris
    } else if b == 0x67 {
        Action::VisualBell
    } else {
        Action::UnhandledEscape(None, None, b)
    }
}

/// What an ESC sequence asks for.
pub fn esc_dispatch(intermediates: &[u8], b: u8) -> (r: Action)
    ensures
        r == escaped(intermediates@, b),
{
    if intermediates.len() > 0 {
        if (intermediates[0] == 0x28 || intermediates[0] == 0x29) && b == 0x42 {
            return Action::Ignore;
        }
        return Action::UnhandledEscape(get_byte(intermediates, 0), get_byte(intermediates, 1), b);
    }
    match b {
        0x37 => Action::Decsc,
        0x38 => Action::Decrc,
        0x3d => Action::Deckpam,
        0x3e => Action::Deckpnm,
        0x48 => Action::Hts,
        0x4d => Action::Ri,
        0x5c => Action::Ignore,
        0x63 => Action::Ris,
        0x67 => Action::VisualBell,
        _ => Action::UnhandledEscape(None, None, b),
    }
}

/// A window operation: `8` asks for a size, `22` and `23` save and restore the title unless
/// only the icon's name is meant, and the queries have no effect.
pub open spec fn window_op(p: Seq<Seq<u16>>, size: (u16, u16)) -> Action {
    match opt_param(p, 0) {
        Some(op) => if op == 8 {
            Action::Resize(
                match opt_param(p, 1) {
                    Some(v) => v,
                    None => size.0,
                },
                match opt_param(p, 2) {
                    Some(v) => v,
                    None => size.1,
                },
            )
        } else if op == 11 || op == 13 || op == 14 || op == 16 || op == 18 || op == 19 || op == 21 {
            Action::Ignore
        } else if op == 22 || op == 23 {
            if opt_param(p, 1) == Some(1u16) {
                Action::Ignore
            } else if op == 22 {
                Action::TitlePush
            } else {
                Action::TitlePop
            }
        } else {
            Action::UnhandledCsi(None, None, 't')
        },
        None => Action::UnhandledCsi(None, None, 't'),
    }
}

fn window_operation(p: &Vec<Vec<u16>>, size: (u16, u16)) -> (r: Action)
    ensures
        r == window_op(param_views(p@), size),
{
    match read_param(p, 0) {
        Some(op) => match op {
            8 => {
                let rows: u16 = match read_param(p, 1) {
                    Some(v) => v,
                    None => size.0,
                };
                let cols: u16 = match read_param(p, 2) {
                    Some(v) => v,
                    None => size.1,
                };
                Action::Resize(rows, cols)
            },
            11 | 13 | 14 | 16 | 18 | 19 | 21 => Action::Ignore,
            22 | 23 => {
                let which: u16 = match read_param(p, 1) {
                    Some(v) => v,
                    None => 0,
                };
                if which == 1 {
                    Action::Ignore
                } else if op == 22 {
                    Action::TitlePush
                } else {
                    Action::TitlePop
                }
            },
            _ => Action::UnhandledCsi(None, None, 't'),
        },
        None => Action::UnhandledCsi(None, None, 't'),
    }
}

/// A CSI sequence without intermediates, on a screen of `size` rows and columns.
pub open spec fn plain_csi(p: Seq<Seq<u16>>, c: char, size: (u16, u16)) -> Action {
    let n = param_or(p, 0, 1);
    let m = param_or(p, 0, 0);
    match c {
        '@' => Action::Ich(n),
        'A' => Action::Cuu(n),
        'B' | 'e' => Action::Cud(n),
        'C' | 'a' => Action::Cuf(n),
        'D' => Action::Cub(n),
        'E' => Action::Cnl(n),
        'F' => Action::Cpl(n),
        'G' | '`' => Action::Cha(n),
        'H' | 'f' => Action::Cup(n, param_or(p, 1, 1)),
        'I' => Action::Cht(n),
        'J' => Action::Ed(m),
        'K' => Action::El(m),
        'L' => Action::Il(n),
        'M' => Action::Dl(n),
        'P' => Action::Dch(n),
        'S' => Action::Su(n),
        'T' => Action::Sd(n),
        'X' => Action::Ech(n),
        'Z' => Action::Cbt(n),
        'b' => Action::Rep(n),
        'd' => Action::Vpa(n),
        'c' | 'n' => Action::Ignore,
        'g' => Action::Tbc(m),
        'h' => Action::Sm,
        'l' => Action::Rm,
        'm' => Action::Sgr,
        'r' => Action::Decstbm(n, param_or(p, 1, size.0)),
        's' => if m == 0 {
            Action::Scosc
        } else {
            Action::UnhandledCsi(None, None, c)
        },
        'u' => if m == 0 {
            Action::Scorc
        } else {
            Action::UnhandledCsi(None, None, c)
        },
        't' => window_op(p, size),
        _ => Action::UnhandledCsi(None, None, c),
    }
}

/// A CSI sequence, on a screen of `size` rows and columns.
pub open spec fn control_sequence(
    p: Seq<Seq<u16>>,
    intermediates: Seq<u8>,
    c: char,
    size: (u16, u16),
) -> Action {
    let unhandled = Action::UnhandledCsi(byte_at(intermediates, 0), byte_at(intermediates, 1), c);
    if intermediates.len() == 0 {
        plain_csi(p, c, size)
    } else if intermediates[0] == 0x3f {
        match c {
            'J' => Action::Decsed(param_or(p, 0, 0)),
            'K' => Action::Decsel(param_or(p, 0, 0)),
            'h' => Action::Decset,
            'l' => Action::Decrst,
            'n' | 'u' => Action::Ignore,
            _ => unhandled,
        }
    } else if intermediates[0] == 0x3e {
        match c {
            'c' | 'q' | 'm' | 'u' => Action::Ignore,
            _ => unhandled,
        }
    } else if intermediates[0] == 0x3c && c == 'u' {
        Action::Ignore
    } else if intermediates[0] == 0x20 && c == 'q' && param_or(p, 0, 0) <= 6 {
        Action::Decscusr(param_or(p, 0, 0) as u8)
    } else if intermediates[0] == 0x21 && c == 'p' {
        Action::Decstr
    } else {
        unhandled
    }
}

fn plain_csi_dispatch(p: &Vec<Vec<u16>>, c: char, size: (u16, u16)) -> (r: Action)
    ensures
        r == plain_csi(param_views(p@), c, size),
{
    let n: u16 = canonicalize_params_1(p, 1);
    let m: u16 = canonicalize_params_1(p, 0);
    match c {
        '@' => Action::Ich(n),
        'A' => Action::Cuu(n),
        'B' | 'e' => Action::Cud(n),
        'C' | 'a' => Action::Cuf(n),
        'D' => Action::Cub(n),
        'E' => Action::Cnl(n),
        'F' => Action::Cpl(n),
        'G' | '`' => Action::Cha(n),
        'H' | 'f' => {
            let (row, col) = canonicalize_params_2(p, 1, 1);
            Action::Cup(row, col)
        },
        'I' => Action::Cht(n),
        'J' => Action::Ed(m),
        'K' => Action::El(m),
        'L' => Action::Il(n),
        'M' => Action::Dl(n),
        'P' => Action::Dch(n),
        'S' => Action::Su(n),
        'T' => Action::Sd(n),
        'X' => Action::Ech(n),
        'Z' => Action::Cbt(n),
        'b' => Action::Rep(n),
        'd' => Action::Vpa(n),
        'c' | 'n' => Action::Ignore,
        'g' => Action::Tbc(m),
        'h' => Action::Sm,
        'l' => Action::Rm,
        'm' => Action::Sgr,
        'r' => {
            let (top, bottom) = canonicalize_params_decstbm(p, size.0);
            Action::Decstbm(top, bottom)
        },
        's' => if m == 0 {
            Action::Scosc
        } else {
            Action::UnhandledCsi(None, None, c)
        },
        'u' => if m == 0 {
            Action::Scorc
        } else {
            Action::UnhandledCsi(None, None, c)
        },
        't' => window_operation(p, size),
        _ => Action::UnhandledCsi(None, None, c),
    }
}

/// What a CSI sequence asks for, on a screen of `size` rows and columns.
pub fn csi_dispatch(p: &Vec<Vec<u16>>, intermediates: &[u8], c: char, size: (u16, u16)) -> (r:
    Action)
    ensures
        r == control_sequence(param_views(p@), intermediates@, c, size),
{
    if intermediates.len() == 0 {
        return plain_csi_dispatch(p, c, size);
    }
    let unhandled = Action::UnhandledCsi(get_byte(intermediates, 0), get_byte(intermediates, 1), c);
    let m: u16 = canonicalize_params_1(p, 0);
    match intermediates[0] {
        0x3f => match c {
            'J' => Action::Decsed(m),
            'K' => Action::Decsel(m),
            'h' => Action::Decset,
            'l' => Action::Decrst,
            'n' | 'u' => Action::Ignore,
            _ => unhandled,
        },
        0x3e => match c {
            'c' | 'q' | 'm' | 'u' => Action::Ignore,
            _ => unhandled,
        },
        0x3c => if c == 'u' {
            Action::Ignore
        } else {
            unhandled
        },
        0x20 => if c == 'q' && m <= 6 {
            Action::Decscusr(m as u8)
        } else {
            unhandled
        },
        0x21 => if c == 'p' {
            Action::Decstr
        } else {
            unhandled
        },
        _ => unhandled,
    }
}

// ---- OSC ----

/// What an OSC sequence asks for.
#[derive(Debug, PartialEq, Eq)]
pub enum OscAction {
    SetTitle(Vec<u8>),
    SetWindowIconName(Vec<u8>),
    SetWindowTitle(Vec<u8>),
    SetDefaultFg(Option<(u8, u8, u8)>),
    SetDefaultBg(Option<(u8, u8, u8)>),
    LinkClose,
    LinkOpen(Vec<u8>),
    PasteFromClipboard(Vec<u8>),
    CopyToClipboard(Vec<u8>, Vec<u8>),
    Unhandled,
}

/// The model of [`OscAction`].
pub ghost enum OscView {
    SetTitle(Seq<u8>),
    SetWindowIconName(Seq<u8>),
    SetWindowTitle(Seq<u8>),
    SetDefaultFg(Option<(u8, u8, u8)>),
    SetDefaultBg(Option<(u8, u8, u8)>),
    LinkClose,
    LinkOpen(Seq<u8>),
    PasteFromClipboard(Seq<u8>),
    CopyToClipboard(Seq<u8>, Seq<u8>),
    Unhandled,
}

impl View for OscAction {
    type V = OscView;

    open spec fn view(&self) -> OscView {
        match self {
            OscAction::SetTitle(s) => OscView::SetTitle(s@),
            OscAction::SetWindowIconName(s) => OscView::SetWindowIconName(s@),
            OscAction::SetWindowTitle(s) => OscView::SetWindowTitle(s@),
            OscAction::SetDefaultFg(c) => OscView::SetDefaultFg(*c),
            OscAction::SetDefaultBg(c) => OscView::SetDefaultBg(*c),
            OscAction::LinkClose => OscView::LinkClose,
            OscAction::LinkOpen(u) => OscView::LinkOpen(u@),
            OscAction::PasteFromClipboard(t) => OscView::PasteFromClipboard(t@),
            OscAction::CopyToClipboard(t, d) => OscView::CopyToClipboard(t@, d@),
            OscAction::Unhandled => OscView::Unhandled,
        }
    }
}

/// The models of actions.
pub open spec fn osc_views(s: Seq<OscAction>) -> Seq<OscView> {
    Seq::new(s.len(), |i: int| s[i]@)
}

/// The value of a hexadecimal digit.
pub open spec fn hex_value(b: u8) -> Option<int> {
    if 0x30 <= b <= 0x39 {
        Some(b - 0x30)
    } else if 0x41 <= b <= 0x46 {
        Some(b - 0x37)
    } else if 0x61 <= b <= 0x66 {
        Some(b - 0x57)
    } else {
        None
    }
}

/// The number that hexadecimal digits spell.
pub open spec fn hex_number(d: Seq<u8>) -> Option<int>
    decreases d.len(),
{
    if d.len() == 0 {
        Some(0)
    } else {
        match (hex_number(d.drop_last()), hex_value(d.last())) {
            (Some(v), Some(x)) => Some(v * 16 + x),
            _ => None,
        }
    }
}

/// A colour component of one to four hexadecimal digits.
pub open spec fn component(d: Seq<u8>) -> Option<int> {
    if 1 <= d.len() <= 4 {
        hex_number(d)
    } else {
        None
    }
}

/// A component of `n` digits in eight bits: one digit stands twice, of more than two the
/// leading two count.
pub open spec fn scaled(v: int, n: int) -> u8 {
    (if n == 1 {
        v * 17
    } else if n == 2 {
        v
    } else if n == 3 {
        v / 16
    } else {
        v / 256
    }) as u8
}

/// Three components, each in eight bits.
pub open spec fn components(r: Seq<u8>, g: Seq<u8>, b: Seq<u8>) -> Option<(u8, u8, u8)> {
    match (component(r), component(g), component(b)) {
        (Some(x), Some(y), Some(z)) => Some(
            (scaled(x, r.len() as int), scaled(y, g.len() as int), scaled(z, b.len() as int)),
        ),
        _ => None,
    }
}

/// A colour as `rgb:R/G/B`, or as `#` and three components of one length.
pub open spec fn osc_color(v: Seq<u8>) -> Option<(u8, u8, u8)> {
    if begins(v, "rgb:".spec_bytes()) {
        let s = v.skip(4);
        let i = index_of(s, 0x2fu8);
        let t = s.skip(i + 1);
        let j = index_of(t, 0x2fu8);
        let u = t.skip(j + 1);
        if i < s.len() && j < t.len() && !u.contains(0x2f) {
            components(s.take(i), t.take(j), u)
        } else {
            None
        }
    } else if v.len() > 0 && v[0] == 0x23 {
        let h = v.skip(1);
        let n = h.len() as int / 3;
        if h.len() == 3 || h.len() == 6 || h.len() == 9 || h.len() == 12 {
            components(h.take(n), h.subrange(n, 2 * n), h.skip(2 * n))
        } else {
            None
        }
    } else {
        None
    }
}

fn hex_digit_value(b: u8) -> (r: Option<u32>)
    ensures
        r is Some <==> hex_value(b) is Some,
        r matches Some(v) ==> hex_value(b) == Some(v as int) && v < 16,
{
    if 0x30 <= b && b <= 0x39 {
        Some((b - 0x30) as u32)
    } else if 0x41 <= b && b <= 0x46 {
        Some((b - 0x37) as u32)
    } else if 0x61 <= b && b <= 0x66 {
        Some((b - 0x57) as u32)
    } else {
        None
    }
}

proof fn lemma_hex_number_prefix(d: Seq<u8>, k: int)
    requires
        0 <= k <= d.len(),
        hex_number(d.take(k)) is None,
    ensures
        hex_number(d) is None,
    decreases d.len() - k,
{
    if k < d.len() {
        assert(d.take(k + 1).drop_last() =~= d.take(k));
        lemma_hex_number_prefix(d, k + 1);
    } else {
        assert(d.take(k) =~= d);
    }
}

fn hexval(d: &[u8]) -> (r: Option<u32>)
    ensures
        r is Some <==> component(d@) is Some,
        r matches Some(v) ==> component(d@) == Some(v as int) && (d@.len() == 1 ==> v < 16) && (
        d@.len() == 2 ==> v < 256) && (d@.len() == 3 ==> v < 4096) && v < 65536,
{
    if d.len() == 0 || d.len() > 4 {
        return None;
    }
    let mut v: u32 = 0;
    let mut i: usize = 0;
    assert(d@.take(0) =~= Seq::<u8>::empty());
    while i < d.len()
        invariant
            i <= d@.len() <= 4,
            hex_number(d@.take(i as int)) == Some(v as int),
            i == 0 ==> v == 0,
            i == 1 ==> v < 16,
            i == 2 ==> v < 256,
            i == 3 ==> v < 4096,
            v < 65536,
            component(d@) == hex_number(d@),
        decreases d@.len() - i,
    {
        assert(d@.take(i + 1).drop_last() =~= d@.take(i as int));
        match hex_digit_value(d[i]) {
            Some(x) => {
                v = v * 16 + x;
                i += 1;
            },
            None => {
                proof {
                    lemma_hex_number_prefix(d@, i + 1);
                }
                return None;
            },
        }
    }
    assert(d@.take(i as int) =~= d@);
    Some(v)
}

fn scale(v: u32, n: usize) -> (r: u8)
    requires
        n == 1 ==> v < 16,
        n == 2 ==> v < 256,
        n == 3 ==> v < 4096,
        v < 65536,
    ensures
        r == scaled(v as int, n as int),
{
    let byte: u32 = if n == 1 {
        v * 17
    } else if n == 2 {
        v
    } else if n == 3 {
        v / 16
    } else {
        v / 256
    };
    byte as u8
}

fn read_components(r: &[u8], g: &[u8], b: &[u8]) -> (c: Option<(u8, u8, u8)>)
    ensures
        c == components(r@, g@, b@),
{
    match (hexval(r), hexval(g), hexval(b)) {
        (Some(x), Some(y), Some(z)) => Some(
            (scale(x, r.len()), scale(y, g.len()), scale(z, b.len())),
        ),
        _ => None,
    }
}

/// Read a colour.
pub fn parse_osc_color(v: &[u8]) -> (r: Option<(u8, u8, u8)>)
    ensures
        r == osc_color(v@),
{
    proof {
        reveal_strlit("rgb:");
        assert(is_ascii("rgb:"));
        is_ascii_spec_bytes("rgb:");
        assert("rgb:".spec_bytes().len() == 4);
    }
    if starts_with(v, "rgb:".as_bytes()) {
        let s = slice_subrange(v, 4, v.len());
        assert(s@ =~= v@.skip(4));
        let i = find_byte(s, 0x2f);
        if i >= s.len() {
            return None;
        }
        let t = slice_subrange(s, i + 1, s.len());
        assert(t@ =~= s@.skip(i + 1));
        let j = find_byte(t, 0x2f);
        if j >= t.len() {
            return None;
        }
        let u = slice_subrange(t, j + 1, t.len());
        assert(u@ =~= t@.skip(j + 1));
        let k = find_byte(u, 0x2f);
        proof {
            crate::text::lemma_index_of(u@, 0x2fu8);
        }
        if k < u.len() {
            assert(u@.contains(0x2f));
            return None;
        }
        assert(!u@.contains(0x2f));
        let a = slice_subrange(s, 0, i);
        let b = slice_subrange(t, 0, j);
        assert(a@ =~= s@.take(i as int));
        assert(b@ =~= t@.take(j as int));
        return read_components(a, b, u);
    }
    if v.len() > 0 && v[0] == 0x23 {
        let h = slice_subrange(v, 1, v.len());
        assert(h@ =~= v@.skip(1));
        if !(h.len() == 3 || h.len() == 6 || h.len() == 9 || h.len() == 12) {
            return None;
        }
        let n: usize = h.len() / 3;
        let a = slice_subrange(h, 0, n);
        let b = slice_subrange(h, n, 2 * n);
        let c = slice_subrange(h, 2 * n, h.len());
        assert(a@ =~= h@.take(n as int));
        assert(c@ =~= h@.skip(2 * n));
        return read_components(a, b, c);
    }
    None
}

/// Whether a byte may stand in base64 text.
pub open spec fn base64_byte(b: u8) -> bool {
    0x41 <= b <= 0x5a || 0x61 <= b <= 0x7a || 0x30 <= b <= 0x39 || b == 0x2b || b == 0x2f || b == 0x3d
}

/// Whether a byte names a clipboard: `c`, `p`, `q`, `s`, or a digit up to seven.
pub open spec fn selector_byte(b: u8) -> bool {
    b == 0x63 || b == 0x70 || b == 0x71 || b == 0x73 || 0x30 <= b <= 0x37
}

/// Whether all bytes are base64.
pub open spec fn all_base64(s: Seq<u8>) -> bool {
    forall|i: int| 0 <= i < s.len() ==> base64_byte(#[trigger] s[i])
}

/// Whether all bytes name clipboards.
pub open spec fn all_selectors(s: Seq<u8>) -> bool {
    forall|i: int| 0 <= i < s.len() ==> selector_byte(#[trigger] s[i])
}

fn check_base64(s: &Vec<u8>) -> (r: bool)
    ensures
        r == all_base64(s@),
{
    let mut i: usize = 0;
    while i < s.len()
        invariant
            i <= s@.len(),
            forall|j: int| 0 <= j < i ==> base64_byte(#[trigger] s@[j]),
        decreases s@.len() - i,
    {
        let b = s[i];
        let ok = (0x41 <= b && b <= 0x5a) || (0x61 <= b && b <= 0x7a) || (0x30 <= b && b <= 0x39) || b
            == 0x2b || b == 0x2f || b == 0x3d;
        if !ok {
            assert(!base64_byte(s@[i as int]));
            return false;
        }
        i += 1;
    }
    true
}

fn check_selectors(s: &Vec<u8>) -> (r: bool)
    ensures
        r == all_selectors(s@),
{
    let mut i: usize = 0;
    while i < s.len()
        invariant
            i <= s@.len(),
            forall|j: int| 0 <= j < i ==> selector_byte(#[trigger] s@[j]),
        decreases s@.len() - i,
    {
        let b = s[i];
        let ok = b == 0x63 || b == 0x70 || b == 0x71 || b == 0x73 || (0x30 <= b && b <= 0x37);
        if !ok {
            assert(!selector_byte(s@[i as int]));
            return false;
        }
        i += 1;
    }
    true
}

/// The models of byte strings.
pub open spec fn osc_params(p: Seq<Vec<u8>>) -> Seq<Seq<u8>> {
    Seq::new(p.len(), |i: int| p[i]@)
}

/// Byte strings from `i` on with semicolons between them.
pub open spec fn rejoined(p: Seq<Seq<u8>>, i: int) -> Seq<u8>
    decreases p.len() - i,
{
    if !(0 <= i < p.len()) {
        Seq::empty()
    } else if i + 1 == p.len() {
        p[i]
    } else {
        p[i].push(0x3b) + rejoined(p, i + 1)
    }
}

/// Whether the byte strings from `i` on are all empty.
pub open spec fn all_empty_from(p: Seq<Seq<u8>>, i: int) -> bool {
    forall|j: int| i <= j < p.len() ==> (#[trigger] p[j]).len() == 0
}

/// An OSC sequence: the title (0 and 2), the icon's name (0 and 1), the default colours (10,
/// 11; reset by 110, 111), hyperlinks (8), and the clipboard (52). Colour queries and shell
/// marks (133) have no effect.
pub open spec fn operating_system_command(p: Seq<Seq<u8>>) -> Seq<OscView> {
    let n = p.len();
    let unhandled = seq![OscView::Unhandled];
    if n == 0 {
        unhandled
    } else if n == 2 && p[0] == "0".spec_bytes() {
        seq![OscView::SetTitle(p[1]), OscView::SetWindowIconName(p[1]), OscView::SetWindowTitle(p[1])]
    } else if n == 2 && p[0] == "1".spec_bytes() {
        seq![OscView::SetWindowIconName(p[1])]
    } else if n == 2 && p[0] == "2".spec_bytes() {
        seq![OscView::SetTitle(p[1]), OscView::SetWindowTitle(p[1])]
    } else if n == 2 && (p[0] == "10".spec_bytes() || p[0] == "11".spec_bytes()) && p[1]
        == "?".spec_bytes() {
        Seq::empty()
    } else if p[0] == "133".spec_bytes() {
        Seq::empty()
    } else if n == 2 && p[0] == "10".spec_bytes() {
        match osc_color(p[1]) {
            Some(c) => seq![OscView::SetDefaultFg(Some(c))],
            None => unhandled,
        }
    } else if n == 2 && p[0] == "11".spec_bytes() {
        match osc_color(p[1]) {
            Some(c) => seq![OscView::SetDefaultBg(Some(c))],
            None => unhandled,
        }
    } else if n == 1 && p[0] == "110".spec_bytes() {
        seq![OscView::SetDefaultFg(None)]
    } else if n == 1 && p[0] == "111".spec_bytes() {
        seq![OscView::SetDefaultBg(None)]
    } else if n >= 2 && p[0] == "8".spec_bytes() {
        if all_empty_from(p, 2) {
            seq![OscView::LinkClose]
        } else {
            seq![OscView::LinkOpen(rejoined(p, 2))]
        }
    } else if n == 3 && p[0] == "52".spec_bytes() && all_selectors(p[1]) {
        if p[2] == "?".spec_bytes() {
            seq![OscView::PasteFromClipboard(p[1])]
        } else if all_base64(p[2]) {
            seq![OscView::CopyToClipboard(p[1], p[2])]
        } else {
            unhandled
        }
    } else {
        unhandled
    }
}

fn rejoin(p: &Vec<Vec<u8>>, from: usize) -> (r: Vec<u8>)
    ensures
        r@ == rejoined(osc_params(p@), from as int),
{
    let ghost all = osc_params(p@);
    let mut out: Vec<u8> = Vec::new();
    let mut i: usize = from;
    assert(out@ + rejoined(all, from as int) =~= rejoined(all, from as int));
    while i < p.len()
        invariant
            from <= i,
            i <= p@.len() || i == from,
            all == osc_params(p@),
            out@ + rejoined(all, i as int) == rejoined(all, from as int),
        decreases p@.len() - i,
    {
        let ghost before = out@;
        push_bytes(&mut out, p[i].as_slice());
        if i + 1 < p.len() {
            out.push(0x3b);
            assert(out@ =~= before + all[i as int].push(0x3b));
        }
        assert(out@ + rejoined(all, i + 1) =~= before + rejoined(all, i as int));
        i += 1;
    }
    assert(out@ + rejoined(all, i as int) =~= out@);
    out
}

fn empty_from(p: &Vec<Vec<u8>>, from: usize) -> (r: bool)
    ensures
        r == all_empty_from(osc_params(p@), from as int),
{
    let ghost all = osc_params(p@);
    let mut i: usize = from;
    while i < p.len()
        invariant
            from <= i,
            all == osc_params(p@),
            forall|j: int| from <= j < i && j < all.len() ==> (#[trigger] all[j]).len() == 0,
        decreases p@.len() - i,
    {
        if p[i].len() > 0 {
            assert(all[i as int].len() > 0);
            return false;
        }
        i += 1;
    }
    true
}

fn one(a: OscAction) -> (r: Vec<OscAction>)
    ensures
        osc_views(r@) == seq![a@],
{
    let mut v: Vec<OscAction> = Vec::new();
    v.push(a);
    assert(osc_views(v@) =~= seq![a@]);
    v
}

fn also(v: &mut Vec<OscAction>, a: OscAction)
    ensures
        osc_views(final(v)@) == osc_views(old(v)@).push(a@),
{
    let ghost before = osc_views(v@);
    v.push(a);
    assert(osc_views(v@) =~= before.push(a@));
}

fn is(p: &Vec<u8>, s: &str) -> (r: bool)
    ensures
        r == (p@ == s.spec_bytes()),
{
    same_bytes(p.as_slice(), s.as_bytes())
}

/// What an OSC sequence asks for, in order.
pub fn osc_dispatch(p: &Vec<Vec<u8>>) -> (r: Vec<OscAction>)
    ensures
        osc_views(r@) == operating_system_command(osc_params(p@)),
{
    let n: usize = p.len();
    if n == 0 {
        return one(OscAction::Unhandled);
    }
    let ghost all = osc_params(p@);
    assert(all[0] == p@[0]@);
    if n == 2 && is(&p[0], "0") {
        let mut v = one(OscAction::SetTitle(copy_bytes(p[1].as_slice())));
        also(&mut v, OscAction::SetWindowIconName(copy_bytes(p[1].as_slice())));
        also(&mut v, OscAction::SetWindowTitle(copy_bytes(p[1].as_slice())));
        assert(osc_views(v@) =~= operating_system_command(all));
        return v;
    }
    if n == 2 && is(&p[0], "1") {
        return one(OscAction::SetWindowIconName(copy_bytes(p[1].as_slice())));
    }
    if n == 2 && is(&p[0], "2") {
        let mut v = one(OscAction::SetTitle(copy_bytes(p[1].as_slice())));
        also(&mut v, OscAction::SetWindowTitle(copy_bytes(p[1].as_slice())));
        assert(osc_views(v@) =~= operating_system_command(all));
        return v;
    }
    let fg = is(&p[0], "10");
    let bg = is(&p[0], "11");
    if (n == 2 && (fg || bg) && is(&p[1], "?")) || is(&p[0], "133") {
        let v: Vec<OscAction> = Vec::new();
        assert(osc_views(v@) =~= Seq::<OscView>::empty());
        return v;
    }
    if n == 2 && fg {
        return match parse_osc_color(p[1].as_slice()) {
            Some(c) => one(OscAction::SetDefaultFg(Some(c))),
            None => one(OscAction::Unhandled),
        };
    }
    if n == 2 && bg {
        return match parse_osc_color(p[1].as_slice()) {
            Some(c) => one(OscAction::SetDefaultBg(Some(c))),
            None => one(OscAction::Unhandled),
        };
    }
    if n == 1 && is(&p[0], "110") {
        return one(OscAction::SetDefaultFg(None));
    }
    if n == 1 && is(&p[0], "111") {
        return one(OscAction::SetDefaultBg(None));
    }
    if n >= 2 && is(&p[0], "8") {
        if empty_from(p, 2) {
            return one(OscAction::LinkClose);
        }
        return one(OscAction::LinkOpen(rejoin(p, 2)));
    }
    if n == 3 && is(&p[0], "52") && check_selectors(&p[1]) {
        if is(&p[2], "?") {
            return one(OscAction::PasteFromClipboard(copy_bytes(p[1].as_slice())));
        }
        if check_base64(&p[2]) {
            return one(
                OscAction::CopyToClipboard(
                    copy_bytes(p[1].as_slice()),
                    copy_bytes(p[2].as_slice()),
                ),
            );
        }
    }
    one(OscAction::Unhandled)
}

} // verus!
