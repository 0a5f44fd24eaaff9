//! Text attributes.
use crate::text::{dec, dec_text};
use vstd::prelude::*;
use vstd::string::*;
use vstd::utf8::encode_utf8;

verus! {

/// A foreground, background or underline colour.
#[derive(Debug, Clone, Copy, PartialEq, Eq, Structural)]
pub enum Color {
    /// The terminal's own.
    Default,
    /// An entry of the palette.
    Idx(u8),
    /// Red, green and blue.
    Rgb(u8, u8, u8),
}

impl Default for Color {
    fn default() -> (r: Self)
        ensures
            r == Color::Default,
    {
        Color::Default
    }
}

pub const TEXT_MODE_INTENSITY: u16 = 0x3;

pub const TEXT_MODE_BOLD: u16 = 0x1;

pub const TEXT_MODE_DIM: u16 = 0x2;

pub const TEXT_MODE_ITALIC: u16 = 0x4;

pub const TEXT_MODE_STRIKETHROUGH: u16 = 0x8;

pub const TEXT_MODE_INVERSE: u16 = 0x10;

/// The underline style takes three bits.
pub const TEXT_MODE_UNDERLINE: u16 = 0xe0;

pub const TEXT_MODE_CONCEALED: u16 = 0x100;

pub const TEXT_MODE_BLINK: u16 = 0x200;

/// How text is drawn.
#[derive(Debug, Clone, Copy, PartialEq, Eq, Structural)]
pub struct Attrs {
    pub fgcolor: Color,
    pub bgcolor: Color,
    /// The underline's colour; `Default` follows the text.
    pub ulcolor: Color,
    /// The number of the hyperlink, which is not zero: see [`Attrs::link_ok`].
    pub link: Option<u32>,
    pub mode: u16,
}

/// No attributes.
pub open spec fn no_attrs() -> Attrs {
    Attrs {
        fgcolor: Color::Default,
        bgcolor: Color::Default,
        ulcolor: Color::Default,
        link: None,
        mode: 0,
    }
}

impl Default for Attrs {
    fn default() -> (r: Self)
        ensures
            r == no_attrs(),
    {
        Attrs {
            fgcolor: Color::Default,
            bgcolor: Color::Default,
            ulcolor: Color::Default,
            link: None,
            mode: 0,
        }
    }
}

/// Whether `new` differs from `old` at most in the bits of `mask`.
pub open spec fn only_bits(old: u16, new: u16, mask: u16) -> bool {
    forall|k: u16| k & mask == 0 ==> #[trigger] (new & k) == old & k
}

proof fn lemma_set_bits(m: u16, a: u16, v: u16)
    by (bit_vector)
    requires
        v & !a == 0,
    ensures
        ((m & !a) | v) & a == v,
        forall|k: u16| k & a == 0 ==> #[trigger] (((m & !a) | v) & k) == m & k,
{
}

proof fn lemma_or_bits(m: u16, a: u16)
    by (bit_vector)
    ensures
        m | a == (m & !a) | a,
        m & !a == (m & !a) | 0,
        a & !a == 0,
        0u16 & !a == 0,
{
}

proof fn lemma_underline_bits(m: u16, s: u16)
    by (bit_vector)
    requires
        s <= 7,
    ensures
        ((s << 5) & 0xe0) & !0xe0u16 == 0,
        ((s << 5) & 0xe0) >> 5 == s,
        (m & 0xe0) >> 5 <= 7,
{
}

proof fn lemma_masks_apart()
    by (bit_vector)
    ensures
        0x1u16 & !0x3u16 == 0,
        0x2u16 & !0x3u16 == 0,
{
}

proof fn lemma_intensity(m: u16)
    by (bit_vector)
    ensures
        m & 0x3 == 0 || m & 0x3 == 1 || m & 0x3 == 2 || m & 0x3 == 3,
        m & 0x3 == 0 ==> m & 0x1 == 0 && m & 0x2 == 0,
        m & 0x3 == 1 ==> m & 0x1 != 0 && m & 0x2 == 0,
        m & 0x3 == 2 ==> m & 0x1 == 0 && m & 0x2 != 0,
        m & 0x3 == 3 ==> m & 0x1 != 0 && m & 0x2 != 0,
{
}

impl Attrs {
    /// Whether the text is bold.
    pub open spec fn is_bold(&self) -> bool {
        self.mode & TEXT_MODE_BOLD != 0
    }

    /// Whether the text is dim.
    pub open spec fn is_dim(&self) -> bool {
        self.mode & TEXT_MODE_DIM != 0
    }

    /// No link has the number zero. What sets attributes keeps this, and a screen gives its
    /// links numbers from one on.
    pub open spec fn link_ok(&self) -> bool {
        self.link != Some(0u32)
    }

    /// Text is not bold and dim at once.
    pub open spec fn wf(&self) -> bool {
        !(self.is_bold() && self.is_dim())
    }

    /// The underline style.
    pub open spec fn underlined(&self) -> u8 {
        ((self.mode & TEXT_MODE_UNDERLINE) >> 5) as u8
    }

    /// `self` with the bits of `mask` as in `v`.
    pub open spec fn with_bits(&self, mask: u16, v: u16) -> Attrs {
        Attrs { mode: (self.mode & !mask) | v, ..*self }
    }

    /// `self` with the bits of `mask` all on or all off.
    pub open spec fn with_flag(&self, mask: u16, on: bool) -> Attrs {
        self.with_bits(
            mask,
            if on {
                mask
            } else {
                0
            },
        )
    }

    /// `self` with an underline style.
    pub open spec fn with_underline(&self, style: u8) -> Attrs {
        self.with_bits(TEXT_MODE_UNDERLINE, ((style as u16) << 5) & TEXT_MODE_UNDERLINE)
    }

    /// Whether `self` differs from `other` in its mode alone.
    pub open spec fn same_but_mode(&self, other: &Attrs) -> bool {
        self.fgcolor == other.fgcolor && self.bgcolor == other.bgcolor && self.ulcolor
            == other.ulcolor && self.link == other.link
    }

    pub fn bold(&self) -> (r: bool)
        ensures
            r == self.is_bold(),
    {
        self.mode & TEXT_MODE_BOLD != 0
    }

    pub fn dim(&self) -> (r: bool)
        ensures
            r == self.is_dim(),
    {
        self.mode & TEXT_MODE_DIM != 0
    }

    fn set_bits(&mut self, mask: u16, v: u16)
        requires
            v & !mask == 0,
        ensures
            *final(self) == old(self).with_bits(mask, v),
            final(self).same_but_mode(old(self)),
            final(self).mode & mask == v,
            only_bits(old(self).mode, final(self).mode, mask),
    {
        proof {
            lemma_set_bits(self.mode, mask, v);
        }
        self.mode = (self.mode & !mask) | v;
    }

    /// Bold, and not dim.
    pub fn set_bold(&mut self)
        ensures
            *final(self) == old(self).with_bits(TEXT_MODE_INTENSITY, TEXT_MODE_BOLD),
            final(self).same_but_mode(old(self)),
            final(self).is_bold(),
            !final(self).is_dim(),
            only_bits(old(self).mode, final(self).mode, TEXT_MODE_INTENSITY),
    {
        proof {
            lemma_masks_apart();
        }
        self.set_bits(TEXT_MODE_INTENSITY, TEXT_MODE_BOLD);
        proof {
            lemma_intensity(self.mode);
        }
    }

    /// Dim, and not bold.
    pub fn set_dim(&mut self)
        ensures
            *final(self) == old(self).with_bits(TEXT_MODE_INTENSITY, TEXT_MODE_DIM),
            final(self).same_but_mode(old(self)),
            final(self).is_dim(),
            !final(self).is_bold(),
            only_bits(old(self).mode, final(self).mode, TEXT_MODE_INTENSITY),
    {
        proof {
            lemma_masks_apart();
        }
        self.set_bits(TEXT_MODE_INTENSITY, TEXT_MODE_DIM);
        proof {
            lemma_intensity(self.mode);
        }
    }

    /// Neither bold nor dim.
    pub fn set_normal_intensity(&mut self)
        ensures
            *final(self) == old(self).with_bits(TEXT_MODE_INTENSITY, 0),
            final(self).same_but_mode(old(self)),
            !final(self).is_bold(),
            !final(self).is_dim(),
            only_bits(old(self).mode, final(self).mode, TEXT_MODE_INTENSITY),
    {
        proof {
            lemma_or_bits(self.mode, TEXT_MODE_INTENSITY);
        }
        self.set_bits(TEXT_MODE_INTENSITY, 0);
        proof {
            lemma_intensity(self.mode);
        }
    }

    fn set_flag(&mut self, mask: u16, on: bool)
        ensures
            *final(self) == old(self).with_flag(mask, on),
            final(self).same_but_mode(old(self)),
            final(self).mode & mask == (if on {
                mask
            } else {
                0
            }),
            only_bits(old(self).mode, final(self).mode, mask),
    {
        proof {
            lemma_or_bits(self.mode, mask);
        }
        self.set_bits(
            mask,
            if on {
                mask
            } else {
                0
            },
        );
    }

    pub fn italic(&self) -> (r: bool)
        ensures
            r == (self.mode & TEXT_MODE_ITALIC != 0),
    {
        self.mode & TEXT_MODE_ITALIC != 0
    }

    pub fn set_italic(&mut self, italic: bool)
        ensures
            *final(self) == old(self).with_flag(TEXT_MODE_ITALIC, italic),
            final(self).same_but_mode(old(self)),
            (final(self).mode & TEXT_MODE_ITALIC != 0) == italic,
            only_bits(old(self).mode, final(self).mode, TEXT_MODE_ITALIC),
    {
        self.set_flag(TEXT_MODE_ITALIC, italic);
    }

    pub fn underline(&self) -> (r: bool)
        ensures
            r == (self.underlined() != 0),
    {
        self.underline_style() != 0
    }

    pub fn set_underline(&mut self, underline: bool)
        ensures
            final(self).same_but_mode(old(self)),
            final(self).underlined() == (if underline {
                1u8
            } else {
                0u8
            }),
            only_bits(old(self).mode, final(self).mode, TEXT_MODE_UNDERLINE),
    {
        self.set_underline_style(
            if underline {
                1
            } else {
                0
            },
        );
    }

    /// 0 none, 1 single, 2 double, 3 curly, 4 dotted, 5 dashed.
    pub fn underline_style(&self) -> (r: u8)
        ensures
            r == self.underlined(),
    {
        proof {
            lemma_underline_bits(self.mode, 0);
        }
        ((self.mode & TEXT_MODE_UNDERLINE) >> 5) as u8
    }

    pub fn set_underline_style(&mut self, style: u8)
        requires
            style <= 5,
        ensures
            *final(self) == old(self).with_underline(style),
            final(self).same_but_mode(old(self)),
            final(self).underlined() == style,
            only_bits(old(self).mode, final(self).mode, TEXT_MODE_UNDERLINE),
    {
        let s: u16 = style as u16;
        proof {
            lemma_underline_bits(self.mode, s);
        }
        self.set_bits(TEXT_MODE_UNDERLINE, (s << 5) & TEXT_MODE_UNDERLINE);
    }

    pub fn strikethrough(&self) -> (r: bool)
        ensures
            r == (self.mode & TEXT_MODE_STRIKETHROUGH != 0),
    {
        self.mode & TEXT_MODE_STRIKETHROUGH != 0
    }

    pub fn set_strikethrough(&mut self, strikethrough: bool)
        ensures
            *final(self) == old(self).with_flag(TEXT_MODE_STRIKETHROUGH, strikethrough),
            final(self).same_but_mode(old(self)),
            (final(self).mode & TEXT_MODE_STRIKETHROUGH != 0) == strikethrough,
            only_bits(old(self).mode, final(self).mode, TEXT_MODE_STRIKETHROUGH),
    {
        self.set_flag(TEXT_MODE_STRIKETHROUGH, strikethrough);
    }

    pub fn inverse(&self) -> (r: bool)
        ensures
            r == (self.mode & TEXT_MODE_INVERSE != 0),
    {
        self.mode & TEXT_MODE_INVERSE != 0
    }

    pub fn set_inverse(&mut self, inverse: bool)
        ensures
            *final(self) == old(self).with_flag(TEXT_MODE_INVERSE, inverse),
            final(self).same_but_mode(old(self)),
            (final(self).mode & TEXT_MODE_INVERSE != 0) == inverse,
            only_bits(old(self).mode, final(self).mode, TEXT_MODE_INVERSE),
    {
        self.set_flag(TEXT_MODE_INVERSE, inverse);
    }

    pub fn concealed(&self) -> (r: bool)
        ensures
            r == (self.mode & TEXT_MODE_CONCEALED != 0),
    {
        self.mode & TEXT_MODE_CONCEALED != 0
    }

    pub fn set_concealed(&mut self, concealed: bool)
        ensures
            *final(self) == old(self).with_flag(TEXT_MODE_CONCEALED, concealed),
            final(self).same_but_mode(old(self)),
            (final(self).mode & TEXT_MODE_CONCEALED != 0) == concealed,
            only_bits(old(self).mode, final(self).mode, TEXT_MODE_CONCEALED),
    {
        self.set_flag(TEXT_MODE_CONCEALED, concealed);
    }

    pub fn blink(&self) -> (r: bool)
        ensures
            r == (self.mode & TEXT_MODE_BLINK != 0),
    {
        self.mode & TEXT_MODE_BLINK != 0
    }

    pub fn set_blink(&mut self, blink: bool)
        ensures
            *final(self) == old(self).with_flag(TEXT_MODE_BLINK, blink),
            final(self).same_but_mode(old(self)),
            (final(self).mode & TEXT_MODE_BLINK != 0) == blink,
            only_bits(old(self).mode, final(self).mode, TEXT_MODE_BLINK),
    {
        self.set_flag(TEXT_MODE_BLINK, blink);
    }

    /// The escape code that takes a terminal from `other` to `self`.
    pub fn escape_code_diff(&self, other: &Self) -> (r: String)
        ensures
            r@ == escape_diff(*self, *other),
    {
        let mut out = String::new();
        if *self != *other && *self == Attrs::default() {
            out.append("\x1b[m");
        } else {
            let mut codes: Vec<String> = Vec::new();
            assert(code_views(codes@) =~= Seq::<Seq<char>>::empty());
            push_code(&mut codes, self.fgcolor != other.fgcolor, color_code(self.fgcolor, 30));
            push_code(&mut codes, self.bgcolor != other.bgcolor, color_code(self.bgcolor, 40));
            let bold_code = if self.bold() {
                "1"
            } else if self.dim() {
                "2"
            } else {
                "22"
            };
            push_code(
                &mut codes,
                self.bold() != other.bold() || self.dim() != other.dim(),
                String::from_str(bold_code),
            );
            push_code(
                &mut codes,
                self.italic() != other.italic(),
                on_off(self.italic(), "3", "23"),
            );
            push_code(
                &mut codes,
                self.underline_style() != other.underline_style(),
                underline_code(self.underline_style()),
            );
            push_code(
                &mut codes,
                self.strikethrough() != other.strikethrough(),
                on_off(self.strikethrough(), "9", "29"),
            );
            push_code(&mut codes, self.ulcolor != other.ulcolor, ulcolor_code(self.ulcolor));
            push_code(
                &mut codes,
                self.inverse() != other.inverse(),
                on_off(self.inverse(), "7", "27"),
            );
            push_code(
                &mut codes,
                self.concealed() != other.concealed(),
                on_off(self.concealed(), "8", "28"),
            );
            push_code(&mut codes, self.blink() != other.blink(), on_off(self.blink(), "5", "25"));
            assert(code_views(codes@) =~= diff_codes(*self, *other));
            if codes.len() > 0 {
                out.append("\x1b[");
                push_codes(&mut out, &codes);
                out.append("m");
            }
        }
        assert(out@ =~= escape_diff(*self, *other));
        out
    }

    /// Append the escape code that takes a terminal from `other` to `self`. One that
    /// clears everything is used where `self` has no attributes; nothing is written
    /// where there is nothing to change.
    pub fn write_escape_code_diff(&self, contents: &mut Vec<u8>, other: &Self)
        requires
            self.wf() || (self.is_bold() == other.is_bold() && self.is_dim() == other.is_dim()),
        ensures
            final(contents)@ == old(contents)@ + encode_utf8(escape_diff(*self, *other)),
    {
        let out = self.escape_code_diff(other);
        crate::text::push_bytes(contents, out.as_str().as_bytes());
    }
}

/// One code, where it is needed.
#[verifier::opaque]
pub open spec fn code_if(needed: bool, code: Seq<char>) -> Seq<Seq<char>> {
    if needed {
        seq![code]
    } else {
        Seq::empty()
    }
}

/// The code for a text or background colour; `base` is 30 or 40.
#[verifier::opaque]
pub open spec fn color_codes(c: Color, base: u8) -> Seq<char> {
    match c {
        Color::Default => dec((base + 9) as nat),
        Color::Idx(i) => if i < 8 {
            dec((base + i) as nat)
        } else if i < 16 {
            dec((base + 52 + i) as nat)
        } else {
            dec((base + 8) as nat) + ";5;"@ + dec(i as nat)
        },
        Color::Rgb(r, g, b) => dec((base + 8) as nat) + ";2;"@ + dec(r as nat) + ";"@ + dec(g as nat)
            + ";"@ + dec(b as nat),
    }
}

/// The code for an underline colour.
#[verifier::opaque]
pub open spec fn ulcolor_codes(c: Color) -> Seq<char> {
    match c {
        Color::Default => "59"@,
        Color::Idx(i) => "58;5;"@ + dec(i as nat),
        Color::Rgb(r, g, b) => "58;2;"@ + dec(r as nat) + ";"@ + dec(g as nat) + ";"@ + dec(b as nat),
    }
}

/// The code for an underline style.
#[verifier::opaque]
pub open spec fn underline_codes(style: u8) -> Seq<char> {
    if style == 0 {
        "24"@
    } else if style == 1 {
        "4"@
    } else {
        "4:"@ + dec(style as nat)
    }
}

/// A code for on and one for off.
#[verifier::opaque]
pub open spec fn flag_code(on: bool, set: Seq<char>, clear: Seq<char>) -> Seq<char> {
    if on {
        set
    } else {
        clear
    }
}

/// Whether two modes differ in these bits.
pub open spec fn bits_differ(a: Attrs, b: Attrs, mask: u16) -> bool {
    (a.mode & mask != 0) != (b.mode & mask != 0)
}

/// The codes for everything in which `a` differs from `b`.
pub open spec fn diff_codes(a: Attrs, b: Attrs) -> Seq<Seq<char>> {
    code_if(a.fgcolor != b.fgcolor, color_codes(a.fgcolor, 30)) + code_if(
        a.bgcolor != b.bgcolor,
        color_codes(a.bgcolor, 40),
    ) + code_if(
        a.is_bold() != b.is_bold() || a.is_dim() != b.is_dim(),
        if a.is_bold() {
            "1"@
        } else if a.is_dim() {
            "2"@
        } else {
            "22"@
        },
    ) + code_if(
        bits_differ(a, b, TEXT_MODE_ITALIC),
        flag_code(a.mode & TEXT_MODE_ITALIC != 0, "3"@, "23"@),
    ) + code_if(a.underlined() != b.underlined(), underline_codes(a.underlined())) + code_if(
        bits_differ(a, b, TEXT_MODE_STRIKETHROUGH),
        flag_code(a.mode & TEXT_MODE_STRIKETHROUGH != 0, "9"@, "29"@),
    ) + code_if(a.ulcolor != b.ulcolor, ulcolor_codes(a.ulcolor)) + code_if(
        bits_differ(a, b, TEXT_MODE_INVERSE),
        flag_code(a.mode & TEXT_MODE_INVERSE != 0, "7"@, "27"@),
    ) + code_if(
        bits_differ(a, b, TEXT_MODE_CONCEALED),
        flag_code(a.mode & TEXT_MODE_CONCEALED != 0, "8"@, "28"@),
    ) + code_if(
        bits_differ(a, b, TEXT_MODE_BLINK),
        flag_code(a.mode & TEXT_MODE_BLINK != 0, "5"@, "25"@),
    )
}

/// Codes with semicolons between them.
pub open spec fn joined_codes(codes: Seq<Seq<char>>) -> Seq<char>
    decreases codes.len(),
{
    if codes.len() == 0 {
        Seq::empty()
    } else if codes.len() == 1 {
        codes[0]
    } else {
        joined_codes(codes.drop_last()) + ";"@ + codes.last()
    }
}

/// The escape code that takes a terminal from `b` to `a`.
pub open spec fn escape_diff(a: Attrs, b: Attrs) -> Seq<char> {
    if a != b && a == no_attrs() {
        "\x1b[m"@
    } else if diff_codes(a, b).len() == 0 {
        Seq::empty()
    } else {
        "\x1b["@ + joined_codes(diff_codes(a, b)) + "m"@
    }
}

spec fn code_views(s: Seq<String>) -> Seq<Seq<char>> {
    Seq::new(s.len(), |i: int| s[i]@)
}

fn push_code(codes: &mut Vec<String>, needed: bool, code: String)
    ensures
        code_views(final(codes)@) == code_views(old(codes)@) + code_if(needed, code@),
{
    proof {
        reveal(code_if);
    }
    let ghost before = code_views(codes@);
    if needed {
        codes.push(code);
    }
    assert(code_views(codes@) =~= before + code_if(needed, code@));
}

fn push_codes(out: &mut String, codes: &Vec<String>)
    ensures
        final(out)@ == old(out)@ + joined_codes(code_views(codes@)),
{
    let ghost all = code_views(codes@);
    let mut i: usize = 0;
    assert(out@ =~= old(out)@ + joined_codes(all.take(0)));
    while i < codes.len()
        invariant
            i <= codes@.len(),
            all == code_views(codes@),
            out@ == old(out)@ + joined_codes(all.take(i as int)),
        decreases codes@.len() - i,
    {
        if i > 0 {
            out.append(";");
        }
        out.append(codes[i].as_str());
        i += 1;
        assert(all.take(i as int).drop_last() =~= all.take(i - 1));
        assert(out@ =~= old(out)@ + joined_codes(all.take(i as int)));
    }
    assert(all.take(i as int) =~= all);
}

fn on_off(on: bool, set: &str, clear: &str) -> (r: String)
    ensures
        r@ == flag_code(on, set@, clear@),
{
    proof {
        reveal(flag_code);
    }
    if on {
        String::from_str(set)
    } else {
        String::from_str(clear)
    }
}

fn color_code(c: Color, base: u8) -> (r: String)
    requires
        base <= 40,
    ensures
        r@ == color_codes(c, base),
{
    proof {
        reveal(color_codes);
    }
    match c {
        Color::Default => dec_text((base + 9) as u64),
        Color::Idx(i) => if i < 8 {
            dec_text((base + i) as u64)
        } else if i < 16 {
            dec_text((base + 52 + i) as u64)
        } else {
            let mut t = dec_text((base + 8) as u64);
            t.append(";5;");
            t.append(dec_text(i as u64).as_str());
            t
        },
        Color::Rgb(r, g, b) => {
            let mut t = dec_text((base + 8) as u64);
            t.append(";2;");
            t.append(dec_text(r as u64).as_str());
            t.append(";");
            t.append(dec_text(g as u64).as_str());
            t.append(";");
            t.append(dec_text(b as u64).as_str());
            t
        },
    }
}

fn ulcolor_code(c: Color) -> (r: String)
    ensures
        r@ == ulcolor_codes(c),
{
    proof {
        reveal(ulcolor_codes);
    }
    match c {
        Color::Default => String::from_str("59"),
        Color::Idx(i) => {
            let mut t = String::from_str("58;5;");
            t.append(dec_text(i as u64).as_str());
            t
        },
        Color::Rgb(r, g, b) => {
            let mut t = String::from_str("58;2;");
            t.append(dec_text(r as u64).as_str());
            t.append(";");
            t.append(dec_text(g as u64).as_str());
            t.append(";");
            t.append(dec_text(b as u64).as_str());
            t
        },
    }
}

fn underline_code(style: u8) -> (r: String)
    ensures
        r@ == underline_codes(style),
{
    proof {
        reveal(underline_codes);
    }
    if style == 0 {
        String::from_str("24")
    } else if style == 1 {
        String::from_str("4")
    } else {
        let mut t = String::from_str("4:");
        t.append(dec_text(style as u64).as_str());
        t
    }
}

/// Nothing is written where nothing changes.
pub proof fn law_same_attrs_write_nothing(a: Attrs)
    ensures
        escape_diff(a, a) == Seq::<char>::empty(),
{
    reveal(code_if);
    assert(diff_codes(a, a) =~= Seq::<Seq<char>>::empty());
}

} // verus!
