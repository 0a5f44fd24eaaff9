//! What the images of the terminal's protocols become.
use crate::b64::lenient_b64_bytes;
use crate::images::{
    control, finished, kitty_control, kitty_data, kitty_opened, kitty_payload, kv_get, kv_pairs,
    png_file, size_hint, sixel_pixels, sniffed, too_large, unterminated, InterceptorState, KittyFmt,
    Marker, Pair, PayloadView, SegmentView, FILE, MAX_B64_BYTES, MAX_IMAGE_BYTES,
};
use crate::measure_laws::law_cells_cover_the_pixels;
use crate::pty::cells_of_image;
use crate::text::{begins, dec, index_of, law_decimal_reads_back, lemma_index_of_is, trim};
use vstd::prelude::*;
use vstd::utf8::{decode_utf8, encode_utf8, valid_utf8};

verus! {

/// Whether a kitty sequence is a whole direct transfer of plain data that is to be shown.
pub open spec fn whole_direct(seq: Seq<u8>) -> bool {
    let ctrl = kitty_control(seq);
    &&& kv_get(ctrl, "a"@) == Some("T"@)
    &&& kv_get(ctrl, "m"@) is None
    &&& kv_get(ctrl, "t"@) is None
    &&& kv_get(ctrl, "o"@) is None
    &&& kv_get(ctrl, "S"@) is None
    &&& !too_large(Seq::empty(), kitty_payload(seq))
}

/// How many bytes a pixel has in the format of a kitty transfer: three for `24`, four for `32`
/// and where none is given.
pub open spec fn pixel_bytes(f: Option<Seq<char>>) -> int {
    if f == Some("24"@) {
        3
    } else {
        4
    }
}

/// A direct kitty transfer of `w` by `h` pixels whose data has three bytes for each of them in
/// format `24`, or four in format `32` or without one, is an image with just these bytes, and
/// becomes a PNG file of that size.
pub proof fn law_raw_pixels_make_an_image(
    st: InterceptorState,
    seq: Seq<u8>,
    w: u16,
    h: u16,
    data: Seq<u8>,
    fast: bool,
)
    requires
        st.kitty is None,
        whole_direct(seq),
        ({
            let f = kv_get(kitty_control(seq), "f"@);
            &&& f is None || f == Some("24"@) || f == Some("32"@)
            &&& data.len() == w * h * pixel_bytes(f)
        }),
        w > 0,
        h > 0,
        kv_get(kitty_control(seq), "s"@) == Some(dec(w as nat)),
        kv_get(kitty_control(seq), "v"@) == Some(dec(h as nat)),
        lenient_b64_bytes(trim(kitty_payload(seq))) == Some(data),
        data.len() <= MAX_IMAGE_BYTES,
    ensures
        st.parsed(Marker::Kitty, seq).1 matches SegmentView::Deferred(d) && d.px == (
            w as u32,
            h as u32,
        ) && {
            &&& d.payload matches PayloadView::Raw { pixels, channels, w: pw, h: ph }
            &&& pixels == data
            &&& (pw, ph) == (w as u32, h as u32)
            &&& pw * ph * channels == data.len()
            &&& finished(d.payload, fast) == match png_file(
                w as u32,
                h as u32,
                kv_get(kitty_control(seq), "f"@) != Some("24"@),
                data,
                fast,
            ) {
                Some(png) => Some((png, (w as u32, h as u32))),
                None => None,
            }
        },
{
    reveal(InterceptorState::parsed);
    reveal_strlit("T");
    reveal_strlit("z");
    reveal_strlit("1");
    reveal_strlit("100");
    reveal_strlit("32");
    reveal_strlit("24");
    law_decimal_reads_back(w as nat, 65535);
    law_decimal_reads_back(h as nat, 65535);
    let p = kitty_payload(seq);
    assert(Seq::<char>::empty() + p =~= p);
    assert("32"@[0] != "24"@[0] && "100"@.len() != "24"@.len() && "100"@.len() != "32"@.len());
    let f = kv_get(kitty_control(seq), "f"@);
    let acc = kitty_opened(kitty_control(seq)).absorbed(p);
    assert(acc.fmt == if f == Some("24"@) {
        KittyFmt::Rgb
    } else {
        KittyFmt::Rgba
    });
    assert(acc.px == Some((w as u32, h as u32)));
    assert(kitty_data(acc) == Some(data));
    let (x, y) = (w as u32, h as u32);
    assert(x as int * y as int * 3 == w * h * 3 && x as int * y as int * 4 == w * h * 4);
    assert(data.take(data.len() as int) =~= data);
}

/// A direct kitty transfer of a file in format `100` shows that file as it is, where it is a
/// file of a known type; the cells that it takes are those of its keys.
pub proof fn law_sent_file_is_shown(st: InterceptorState, seq: Seq<u8>, data: Seq<u8>, mime: Seq<char>)
    requires
        st.kitty is None,
        whole_direct(seq),
        kv_get(kitty_control(seq), "f"@) == Some("100"@),
        lenient_b64_bytes(trim(kitty_payload(seq))) == Some(data),
        data.len() <= MAX_IMAGE_BYTES,
        sniffed(data) == Some(mime),
    ensures
        st.parsed(Marker::Kitty, seq).1 matches SegmentView::Image(i) && i.bytes == data && i.mime
            == mime && i.cells == size_hint(
            kv_get(kitty_control(seq), "c"@),
            kv_get(kitty_control(seq), "r"@),
        ),
{
    reveal(InterceptorState::parsed);
    reveal_strlit("z");
    let p = kitty_payload(seq);
    assert(Seq::<char>::empty() + p =~= p);
}

/// The cells of a transfer are the columns of its key `c` and the rows of its key `r`.
pub proof fn law_size_hint_is_columns_then_rows(c: u16, r: u16)
    ensures
        c > 0 && r > 0 ==> size_hint(Some(dec(c as nat)), Some(dec(r as nat))) == Some((c, r)),
        c == 0 || r == 0 ==> size_hint(Some(dec(c as nat)), Some(dec(r as nat))) is None,
        size_hint(None, Some(dec(r as nat))) is None,
        size_hint(Some(dec(c as nat)), None) is None,
{
    law_decimal_reads_back(c as nat, 65535);
    law_decimal_reads_back(r as nat, 65535);
}

/// A kitty transfer in two parts is the transfer of both in one: a part with `m=1` shows
/// nothing, and the keys of the first part hold.
pub proof fn law_parts_join(st: InterceptorState, a: Seq<u8>, b: Seq<u8>, whole: Seq<u8>)
    requires
        st.kitty is None,
        kv_get(kitty_control(a), "m"@) == Some("1"@),
        kv_get(kitty_control(b), "m"@) != Some("1"@),
        whole_direct(whole),
        kitty_payload(whole) == kitty_payload(a) + kitty_payload(b),
        forall|k: Seq<char>|
            k != "m"@ ==> #[trigger] kv_get(kitty_control(whole), k) == kv_get(kitty_control(a), k),
        !too_large(Seq::empty(), kitty_payload(a)),
        !too_large(kitty_payload(a), kitty_payload(b)),
    ensures
        st.parsed(Marker::Kitty, a).1 == SegmentView::Drop,
        st.parsed(Marker::Kitty, a).0.parsed(Marker::Kitty, b) == st.parsed(Marker::Kitty, whole),
{
    reveal(InterceptorState::parsed);
    reveal_strlit("m");
    reveal_strlit("a");
    reveal_strlit("c");
    reveal_strlit("r");
    reveal_strlit("f");
    reveal_strlit("s");
    reveal_strlit("v");
    reveal_strlit("o");
    reveal_strlit("t");
    reveal_strlit("S");
    reveal_strlit("O");
    let m = "m"@;
    let ca = kitty_control(a);
    let cw = kitty_control(whole);
    assert("a"@[0] != m[0] && "c"@[0] != m[0] && "r"@[0] != m[0] && "f"@[0] != m[0] && "s"@[0] != m[0]
        && "v"@[0] != m[0] && "o"@[0] != m[0] && "t"@[0] != m[0] && "S"@[0] != m[0] && "O"@[0] != m[0]);
    assert(kv_get(cw, "a"@) == kv_get(ca, "a"@));
    assert(kv_get(cw, "c"@) == kv_get(ca, "c"@));
    assert(kv_get(cw, "r"@) == kv_get(ca, "r"@));
    assert(kv_get(cw, "f"@) == kv_get(ca, "f"@));
    assert(kv_get(cw, "s"@) == kv_get(ca, "s"@));
    assert(kv_get(cw, "v"@) == kv_get(ca, "v"@));
    assert(kv_get(cw, "o"@) == kv_get(ca, "o"@));
    assert(kv_get(cw, "t"@) == kv_get(ca, "t"@));
    assert(kv_get(cw, "S"@) == kv_get(ca, "S"@));
    assert(kv_get(cw, "O"@) == kv_get(ca, "O"@));
    let pa = kitty_payload(a);
    let pb = kitty_payload(b);
    assert(Seq::<char>::empty() + pa =~= pa);
    assert(Seq::<char>::empty() + (pa + pb) =~= pa + pb);
}

/// What is only stored, not shown, is no image; a transfer of too much data neither.
pub proof fn law_undisplayed_transfer_shows_nothing(st: InterceptorState, seq: Seq<u8>)
    requires
        st.kitty is None,
        kv_get(kitty_control(seq), "a"@) != Some("T"@) || too_large(
            Seq::empty(),
            kitty_payload(seq),
        ),
        kv_get(kitty_control(seq), "t"@) is None,
    ensures
        st.parsed(Marker::Kitty, seq).1 == SegmentView::Drop,
{
    reveal(InterceptorState::parsed);
}

/// A sixel picture becomes a PNG file of its decoded size, with four bytes to a pixel.
pub proof fn law_sixel_makes_an_image(seq: Seq<u8>, w: u32, h: u32, rgba: Seq<u8>, fast: bool)
    requires
        sixel_pixels(seq) == Some((w as usize, h as usize, rgba)),
        w > 0,
        h > 0,
        rgba.len() == w * h * 4,
    ensures
        finished(PayloadView::Sixel(seq), fast) == match png_file(w, h, true, rgba, fast) {
            Some(png) => Some((png, (w, h))),
            None => None,
        },
{
    assert(rgba.take(rgba.len() as int) =~= rgba);
}

/// What stands between the marker and the terminator of an iTerm2 sequence.
pub open spec fn iterm_body(seq: Seq<u8>) -> Seq<u8> {
    unterminated(seq.skip(7))
}

/// The parameters of an iTerm2 file: what stands before the first colon.
pub open spec fn iterm_keys(body: Seq<u8>) -> Seq<Pair> {
    let args = body.skip(5);
    control(args.take(index_of(args, 0x3au8)), ';')
}

/// The data of an iTerm2 file: what follows the first colon.
pub open spec fn iterm_data(body: Seq<u8>) -> Seq<u8> {
    let args = body.skip(5);
    args.skip(index_of(args, 0x3au8) + 1)
}

/// An inline iTerm2 file of a known type is shown as it is, in as many columns as its `width`
/// and as many rows as its `height`; one that is not inline is not shown.
pub proof fn law_inline_file_is_shown(
    st: InterceptorState,
    seq: Seq<u8>,
    w: u16,
    h: u16,
    text: Seq<char>,
    data: Seq<u8>,
    mime: Seq<char>,
)
    requires
        begins(iterm_body(seq), FILE@),
        index_of(iterm_body(seq).skip(5), 0x3au8) < iterm_body(seq).skip(5).len(),
        valid_utf8(iterm_data(iterm_body(seq))),
        kv_get(iterm_keys(iterm_body(seq)), "width"@) == Some(dec(w as nat)),
        kv_get(iterm_keys(iterm_body(seq)), "height"@) == Some(dec(h as nat)),
        w > 0,
        h > 0,
        decode_utf8(iterm_data(iterm_body(seq))) == text,
        trim(text) == text,
        lenient_b64_bytes(text) == Some(data),
        encode_utf8(text).len() <= MAX_B64_BYTES,
        sniffed(data) == Some(mime),
    ensures
        kv_get(iterm_keys(iterm_body(seq)), "inline"@) == Some("1"@) ==> (st.parsed(
            Marker::Iterm,
            seq,
        ).1 matches SegmentView::Image(i) && i.bytes == data && i.mime == mime && i.cells == Some((w, h))),
        kv_get(iterm_keys(iterm_body(seq)), "inline"@) != Some("1"@) ==> st.parsed(Marker::Iterm, seq).1
            == SegmentView::Drop,
{
    reveal(InterceptorState::parsed);
    law_size_hint_is_columns_then_rows(w, h);
}

/// Keys and values are read one after the other: a name, `=`, a value, and the separator.
pub proof fn law_keys_are_read_in_order(n: Seq<char>, v: Seq<char>, sep: char, rest: Seq<char>)
    requires
        sep != '=',
        forall|i: int| 0 <= i < n.len() ==> #[trigger] n[i] != '=' && n[i] != sep,
        forall|i: int| 0 <= i < v.len() ==> #[trigger] v[i] != sep,
    ensures
        kv_pairs(n + seq!['='] + v + seq![sep] + rest, sep) == seq![(trim(n), trim(v))] + kv_pairs(
            rest,
            sep,
        ),
        kv_pairs(n + seq!['='] + v, sep) == seq![(trim(n), trim(v))],
{
    let d = n + seq!['='] + v;
    let s = d + seq![sep] + rest;
    assert forall|i: int| 0 <= i < d.len() implies #[trigger] d[i] != sep by {
        if i < n.len() {
            assert(d[i] == n[i]);
        } else if i > n.len() {
            assert(d[i] == v[i - n.len() - 1]);
        }
    }
    assert forall|i: int| 0 <= i < d.len() implies #[trigger] s[i] != sep by {
        assert(s[i] == d[i]);
    }
    lemma_index_of_is(s, sep, d.len() as int);
    lemma_index_of_is(d, sep, d.len() as int);
    assert forall|i: int| 0 <= i < n.len() implies #[trigger] d[i] != '=' by {
        assert(d[i] == n[i]);
    }
    lemma_index_of_is(d, '=', n.len() as int);
    assert(s.take(d.len() as int) =~= d);
    assert(s.skip(d.len() as int + 1) =~= rest);
    assert(d.take(n.len() as int) =~= n);
    assert(d.skip(n.len() as int + 1) =~= v);
}

/// An image without a size in cells takes as many columns as its width and as many rows as its
/// height need; one with a size takes that.
pub proof fn law_image_takes_the_cells_it_needs(
    cells: (u16, u16),
    px: Option<(u32, u32)>,
    w: u32,
    h: u32,
    cell: (u16, u16),
)
    requires
        cell.0 > 0,
        cell.1 > 0,
        0 < w <= 65535 * cell.0,
        0 < h <= 65535 * cell.1,
    ensures
        cells_of_image(Some(cells), px, cell) == Some(cells),
        cells_of_image(None, Some((w, h)), cell) matches Some((c, r)) && (c - 1) * cell.0 < w && w <= c
            * cell.0 && (r - 1) * cell.1 < h && h <= r * cell.1,
        cells_of_image(None, None, cell) is None,
{
    law_cells_cover_the_pixels(w, cell.0);
    law_cells_cover_the_pixels(h, cell.1);
}

} // verus!
