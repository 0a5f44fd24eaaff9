//! What sizes, colours and names come to.
use crate::fonts::{family_for, Override};
use crate::images::{cell_count, sniffed};
use crate::json::hex_value;
use crate::model::CellView;
use crate::pty::{covered, due, mark_of, pixels};
use crate::render::{box_style, cell_bg, cell_fg, hex_color};
use crate::text::{dec, index_of, is_digit, law_decimal_reads_back, lemma_dec_digits, lemma_index_of_is, trim};
use crate::tmux::size_of;
use vstd::prelude::*;

verus! {

/// The cells that an image takes are just enough for its pixels.
pub proof fn law_cells_cover_the_pixels(px: u32, cell: u16)
    requires
        cell > 0,
        px > 0,
        px <= 65535 * cell,
    ensures
        covered(px, cell) * cell >= px,
        (covered(px, cell) - 1) * cell < px,
{
    let k = (px + cell - 1) / cell as int;
    assert(k * cell >= px && (k - 1) * cell < px && k <= 65535 && k >= 1) by (nonlinear_arith)
        requires
            k == (px + cell - 1) / cell as int,
            cell > 0,
            px > 0,
            px <= 65535 * cell,
    ;
    assert(k % 65536 == k);
}

/// A placeholder image takes just enough cells for its pixels, as far as there are marks for
/// them, and at least one.
pub proof fn law_placeholders_cover_the_pixels(n: u32, c: u16)
    requires
        c > 0,
    ensures
        1 <= cell_count(n, c) <= 297,
        n > 0 ==> (cell_count(n, c) - 1) * c < n,
        n <= 297 * c ==> cell_count(n, c) * c >= n,
{
    let k = (n + c - 1) / c as int;
    assert(k * c >= n && (n > 0 ==> (k - 1) * c < n) && (n <= 297 * c ==> k <= 297) && k >= 0)
        by (nonlinear_arith)
        requires
            k == (n + c - 1) / c as int,
            c > 0,
            n >= 0,
    ;
    let q = cell_count(n, c) as int;
    if k > 297 {
        assert(q == 297);
        assert((q - 1) * c < (k - 1) * c) by (nonlinear_arith)
            requires
                q == 297,
                k > 297,
                c > 0,
        ;
    } else if k >= 1 {
        assert(q == k);
        assert((q - 1) * c == (k - 1) * c && q * c == k * c);
    } else {
        assert(k * c == 0) by (nonlinear_arith)
            requires
                k == 0,
        ;
        assert(n == 0 && q == 1);
    }
}

/// Pixels that are reported are taken as they are; else there are so many for each cell, or as
/// many as can be told.
pub proof fn law_missing_pixels_are_assumed(reported: u16, cells: u16, cell: u16)
    ensures
        reported > 0 ==> pixels(reported, cells, cell) == reported,
        reported == 0 && cells * cell <= 0xffff ==> pixels(reported, cells, cell) == cells * cell,
        reported == 0 && cells * cell > 0xffff ==> pixels(reported, cells, cell) == 0xffff,
{
}

/// The marks of images are characters for private use, and those of as many images as there are
/// such characters in a row differ.
pub proof fn law_marks_differ(a: u32, b: u32)
    ensures
        0xe000 <= mark_of(a) as u32 <= 0xf8ff,
        a < b < a + 6400 ==> mark_of(a) != mark_of(b),
{
    if a < b && b < a + 6400 {
        assert(a % 6400 != b % 6400) by (nonlinear_arith)
            requires
                a < b,
                b < a + 6400,
        ;
    }
}

/// A frame is due only where something changed; one that is due stays due; and in the middle of
/// an update it is due later, but it is due at some time.
pub proof fn law_frames_come_in_time(updating: bool, a: u64, b: u64)
    requires
        a <= b,
    ensures
        !due(false, updating, a),
        due(true, updating, a) ==> due(true, updating, b),
        due(true, true, a) ==> due(true, false, a),
        b >= 1000 ==> due(true, updating, b),
        !due(true, true, 999),
        due(true, false, 999),
{
}

/// A symbol has the family of the first entry whose range it is in, and none where it is in no
/// range.
pub proof fn law_first_range_decides(entries: Seq<Override>, cp: nat, k: int)
    requires
        0 <= k <= entries.len(),
        forall|i: int|
            0 <= i < k ==> !((#[trigger] entries[i]).lo <= cp && cp <= entries[i].hi),
        k < entries.len() ==> entries[k].lo <= cp && cp <= entries[k].hi,
    ensures
        family_for(entries, cp) == if k < entries.len() {
            Some(entries[k].family)
        } else {
            None
        },
    decreases entries.len(),
{
    if entries.len() > 0 && k > 0 {
        assert(!(entries[0].lo <= cp && cp <= entries[0].hi));
        let rest = entries.drop_first();
        assert forall|i: int| 0 <= i < k - 1 implies !((#[trigger] rest[i]).lo <= cp && cp
            <= rest[i].hi) by {
            assert(rest[i] == entries[i + 1]);
        }
        law_first_range_decides(rest, cp, k - 1);
    }
}

/// Image files are told by their first bytes.
pub proof fn law_files_are_told_by_their_start(more: Seq<u8>)
    ensures
        sniffed(seq![0x89u8, 0x50, 0x4e, 0x47, 0x0d, 0x0a, 0x1a, 0x0a] + more) == Some("image/png"@),
        sniffed(seq![0xffu8, 0xd8, 0xff] + more) == Some("image/jpeg"@),
        sniffed(seq![0x47u8, 0x49, 0x46, 0x38, 0x37, 0x61] + more) == Some("image/gif"@),
        sniffed(seq![0x47u8, 0x49, 0x46, 0x38, 0x39, 0x61] + more) == Some("image/gif"@),
        forall|a: u8, b: u8, c: u8, d: u8|
            sniffed(
                #[trigger] seq![0x52u8, 0x49, 0x46, 0x46, a, b, c, d, 0x57, 0x45, 0x42, 0x50] + more,
            ) == Some("image/webp"@),
        sniffed(Seq::empty()) is None,
{
    let png = seq![0x89u8, 0x50, 0x4e, 0x47, 0x0d, 0x0a, 0x1a, 0x0a];
    let jpeg = seq![0xffu8, 0xd8, 0xff];
    let g87 = seq![0x47u8, 0x49, 0x46, 0x38, 0x37, 0x61];
    let g89 = seq![0x47u8, 0x49, 0x46, 0x38, 0x39, 0x61];
    assert((png + more).take(8) =~= png);
    assert((jpeg + more).take(3) =~= jpeg);
    assert((g87 + more).take(6) =~= g87);
    assert((g89 + more).take(6) =~= g89);
    assert((jpeg + more)[0] == 0xff);
    assert((g87 + more)[0] == 0x47);
    assert((g89 + more)[0] == 0x47);
    assert forall|a: u8, b: u8, c: u8, d: u8|
        sniffed(
            #[trigger] seq![0x52u8, 0x49, 0x46, 0x46, a, b, c, d, 0x57, 0x45, 0x42, 0x50] + more,
        ) == Some("image/webp"@) by {
        let w = seq![0x52u8, 0x49, 0x46, 0x46, a, b, c, d, 0x57, 0x45, 0x42, 0x50] + more;
        assert(w[0] == 0x52);
        assert(w.take(4) =~= seq![0x52u8, 0x49, 0x46, 0x46]);
        assert(w.subrange(8, 12) =~= seq![0x57u8, 0x45, 0x42, 0x50]);
    }
}

/// A colour in CSS is `#` and two hexadecimal digits each for red, green and blue.
pub proof fn law_css_colour_reads_back(c: (u8, u8, u8))
    ensures
        ({
            let t = hex_color(c);
            &&& t.len() == 7 && t[0] == '#'
            &&& 16 * hex_value(t[1]) + hex_value(t[2]) == c.0
            &&& 16 * hex_value(t[3]) + hex_value(t[4]) == c.1
            &&& 16 * hex_value(t[5]) + hex_value(t[6]) == c.2
            &&& forall|i: int| 0 <= i < 7 ==> #[trigger] t[i] != ';'
        }),
{
    reveal_strlit("#");
    lemma_hex_value(c.0);
    lemma_hex_value(c.1);
    lemma_hex_value(c.2);
    let t = hex_color(c);
    assert(t =~= seq!['#'] + crate::text::hex2(c.0) + crate::text::hex2(c.1) + crate::text::hex2(c.2));
    assert(t[1] == crate::text::hex2(c.0)[0] && t[2] == crate::text::hex2(c.0)[1]);
    assert(t[3] == crate::text::hex2(c.1)[0] && t[4] == crate::text::hex2(c.1)[1]);
    assert(t[5] == crate::text::hex2(c.2)[0] && t[6] == crate::text::hex2(c.2)[1]);
}

proof fn lemma_hex_value(b: u8)
    ensures
        ({
            let h = crate::text::hex2(b);
            &&& h.len() == 2
            &&& 16 * hex_value(h[0]) + hex_value(h[1]) == b
            &&& h[0] != ';' && h[1] != ';'
        }),
{
    let h = crate::text::hex2(b);
    assert(h[0] == crate::text::hex_char((b / 16) as nat));
    assert(h[1] == crate::text::hex_char((b % 16) as nat));
    assert(hex_value(h[0]) == b / 16);
    assert(hex_value(h[1]) == b % 16);
}

/// The declarations of a CSS style: names and values, in order.
#[verifier::opaque]
pub open spec fn declarations(s: Seq<char>) -> Seq<(Seq<char>, Seq<char>)>
    decreases s.len(),
{
    let k = index_of(s, ';');
    if 0 <= k < s.len() {
        let d = s.take(k);
        let c = index_of(d, ':');
        if 0 <= c < d.len() {
            seq![(d.take(c), d.skip(c + 1))] + declarations(s.skip(k + 1))
        } else {
            Seq::empty()
        }
    } else {
        Seq::empty()
    }
}

proof fn lemma_declaration(name: Seq<char>, value: Seq<char>, rest: Seq<char>)
    requires
        forall|i: int| 0 <= i < name.len() ==> #[trigger] name[i] != ':' && name[i] != ';',
        forall|i: int| 0 <= i < value.len() ==> #[trigger] value[i] != ';',
    ensures
        declarations(name + seq![':'] + value + seq![';'] + rest) == seq![(name, value)]
            + declarations(rest),
{
    reveal_with_fuel(declarations, 1);
    let d = name + seq![':'] + value;
    let s = d + seq![';'] + rest;
    assert forall|i: int| 0 <= i < d.len() implies #[trigger] s[i] != ';' by {
        if i < name.len() {
            assert(s[i] == name[i]);
        } else if i > name.len() {
            assert(s[i] == value[i - name.len() - 1]);
        }
    }
    lemma_index_of_is(s, ';', d.len() as int);
    assert(s.take(d.len() as int) =~= d);
    assert forall|i: int| 0 <= i < name.len() implies #[trigger] d[i] != ':' by {
        assert(d[i] == name[i]);
    }
    lemma_index_of_is(d, ':', name.len() as int);
    assert(d.take(name.len() as int) =~= name);
    assert(d.skip(name.len() as int + 1) =~= value);
    assert(s.skip(d.len() as int + 1) =~= rest);
}

#[verifier::opaque]
spec fn clean(name: Seq<char>, value: Seq<char>) -> bool {
    &&& forall|i: int| 0 <= i < name.len() ==> #[trigger] name[i] != ':' && name[i] != ';'
    &&& forall|i: int| 0 <= i < value.len() ==> #[trigger] value[i] != ';'
}

proof fn lemma_words()
    ensures
        "text-decoration:underline;"@ == "text-decoration"@ + seq![':'] + "underline"@ + seq![';'],
        "font-style:italic;"@ == "font-style"@ + seq![':'] + "italic"@ + seq![';'],
        "font-weight:bold;"@ == "font-weight"@ + seq![':'] + "bold"@ + seq![';'],
        clean("text-decoration"@, "underline"@),
        clean("font-style"@, "italic"@),
        clean("font-weight"@, "bold"@),
{
    lemma_underline_words();
    lemma_italic_words();
    reveal_strlit("font-weight:bold;");
    reveal_strlit("font-weight");
    reveal_strlit("bold");
    assert("font-weight:bold;"@ =~= "font-weight"@ + seq![':'] + "bold"@ + seq![';']);
    reveal(clean);
}

proof fn lemma_underline_words()
    ensures
        "text-decoration:underline;"@ == "text-decoration"@ + seq![':'] + "underline"@ + seq![';'],
        clean("text-decoration"@, "underline"@),
{
    reveal_strlit("text-decoration:underline;");
    reveal_strlit("text-decoration");
    reveal_strlit("underline");
    assert("text-decoration:underline;"@ =~= "text-decoration"@ + seq![':'] + "underline"@ + seq![';']);
    reveal(clean);
}

proof fn lemma_italic_words()
    ensures
        "font-style:italic;"@ == "font-style"@ + seq![':'] + "italic"@ + seq![';'],
        clean("font-style"@, "italic"@),
{
    reveal_strlit("font-style:italic;");
    reveal_strlit("font-style");
    reveal_strlit("italic");
    assert("font-style:italic;"@ =~= "font-style"@ + seq![':'] + "italic"@ + seq![';']);
    reveal(clean);
}

proof fn lemma_color_words(x: (u8, u8, u8))
    ensures
        "color:"@ + hex_color(x) + ";"@ == "color"@ + seq![':'] + hex_color(x) + seq![';'],
        "background:"@ + hex_color(x) + ";"@ == "background"@ + seq![':'] + hex_color(x) + seq![';'],
        clean("color"@, hex_color(x)),
        clean("background"@, hex_color(x)),
{
    reveal_strlit("color:");
    reveal_strlit("background:");
    reveal_strlit(";");
    reveal_strlit("color");
    reveal_strlit("background");
    law_css_colour_reads_back(x);
    assert("color:"@ + hex_color(x) + ";"@ =~= "color"@ + seq![':'] + hex_color(x) + seq![';']);
    assert("background:"@ + hex_color(x) + ";"@ =~= "background"@ + seq![':'] + hex_color(x) + seq![';']);
    reveal(clean);
}

/// A declaration, where there is one.
pub open spec fn declared(present: bool, name: Seq<char>, value: Seq<char>) -> Seq<
    (Seq<char>, Seq<char>),
> {
    if present {
        seq![(name, value)]
    } else {
        Seq::empty()
    }
}

/// The style of a cell declares its text's colour and its background, where it has them, and
/// that it is bold, italic and underlined, where it is, and nothing else.
pub proof fn law_cell_style_declares_its_looks(c: CellView, cursor: bool)
    ensures
        declarations(box_style(c, cursor)) == declared(
            cell_fg(c, cursor) is Some,
            "color"@,
            hex_color(cell_fg(c, cursor)->0),
        ) + (declared(
            cell_bg(c, cursor) is Some,
            "background"@,
            hex_color(cell_bg(c, cursor)->0),
        ) + (declared(c.style.bold, "font-weight"@, "bold"@) + (declared(
            c.style.italic,
            "font-style"@,
            "italic"@,
        ) + declared(c.style.underline != 0, "text-decoration"@, "underline"@)))),
{
    let none = Seq::<char>::empty();
    let p5 = if c.style.underline != 0 {
        "text-decoration:underline;"@
    } else {
        none
    };
    let p4 = if c.style.italic {
        "font-style:italic;"@
    } else {
        none
    };
    let p3 = if c.style.bold {
        "font-weight:bold;"@
    } else {
        none
    };
    lemma_words();
    lemma_color_words(cell_fg(c, cursor)->0);
    lemma_color_words(cell_bg(c, cursor)->0);
    let d5 = declared(c.style.underline != 0, "text-decoration"@, "underline"@);
    assert(declarations(none) =~= Seq::empty()) by {
        reveal_with_fuel(declarations, 1);
    }
    lemma_part(p5, c.style.underline != 0, "text-decoration"@, "underline"@, none);
    assert(p5 + none =~= p5);
    assert(d5 + declarations(none) =~= d5);
    lemma_part(p4, c.style.italic, "font-style"@, "italic"@, p5);
    lemma_part(p3, c.style.bold, "font-weight"@, "bold"@, p4 + p5);
    let (fg, bg) = (cell_fg(c, cursor), cell_bg(c, cursor));
    let p2 = match bg {
        Some(x) => "background:"@ + hex_color(x) + ";"@,
        None => none,
    };
    let p1 = match fg {
        Some(x) => "color:"@ + hex_color(x) + ";"@,
        None => none,
    };
    lemma_part(p2, bg is Some, "background"@, hex_color(bg->0), p3 + (p4 + p5));
    lemma_part(p1, fg is Some, "color"@, hex_color(fg->0), p2 + (p3 + (p4 + p5)));
    lemma_five(p1, p2, p3, p4, p5);
    assert(box_style(c, cursor) == p1 + p2 + p3 + p4 + p5);
}

proof fn lemma_five(a: Seq<char>, b: Seq<char>, c: Seq<char>, d: Seq<char>, e: Seq<char>)
    ensures
        a + b + c + d + e == a + (b + (c + (d + e))),
{
    assert(a + b + c + d + e =~= a + (b + (c + (d + e))));
}

proof fn lemma_part(p: Seq<char>, present: bool, name: Seq<char>, value: Seq<char>, rest: Seq<char>)
    requires
        present ==> p == name + seq![':'] + value + seq![';'],
        !present ==> p.len() == 0,
        clean(name, value),
    ensures
        declarations(p + rest) == declared(present, name, value) + declarations(rest),
{
    reveal(clean);
    if present {
        lemma_declaration(name, value, rest);
    } else {
        assert(p + rest =~= rest);
        assert(Seq::<(Seq<char>, Seq<char>)>::empty() + declarations(rest) =~= declarations(rest));
    }
}

/// The size of a window is its columns, an `x`, and its rows.
pub proof fn law_window_size_reads_back(w: u16, h: u16)
    ensures
        size_of(dec(w as nat) + seq!['x'] + dec(h as nat)) == Some((w, h)),
{
    let (a, b) = (dec(w as nat), dec(h as nat));
    let s = a + seq!['x'] + b;
    lemma_dec_digits(w as nat);
    lemma_dec_digits(h as nat);
    assert forall|i: int| 0 <= i < a.len() implies #[trigger] s[i] != 'x' by {
        assert(s[i] == a[i]);
        assert(is_digit(a[i]));
    }
    lemma_index_of_is(s, 'x', a.len() as int);
    assert(s.take(a.len() as int) =~= a);
    assert(s.skip(a.len() as int + 1) =~= b);
    lemma_digits_trimmed(a);
    lemma_digits_trimmed(b);
    law_decimal_reads_back(w as nat, 65535);
    law_decimal_reads_back(h as nat, 65535);
}

proof fn lemma_digits_trimmed(s: Seq<char>)
    requires
        s.len() > 0,
        forall|i: int| 0 <= i < s.len() ==> is_digit(#[trigger] s[i]),
    ensures
        trim(s) == s,
{
    assert(is_digit(s[0]));
    assert(is_digit(s[s.len() - 1]));
}

} // verus!
