//! Inline images in a terminal's byte stream.
//!
//! iTerm2 (OSC 1337), kitty (APC `_G`) and sixel (DCS) image sequences are taken out
//! of the stream; every other byte passes through. A sequence may arrive in pieces:
//! it is held until it ends, is cancelled (CAN, SUB, or an ESC that does not form ST),
//! or outgrows [`MAX_SEQ_BYTES`], from where on its bytes are discarded.
//!
//! Kitty's file and shared-memory mediums are never read: such a transfer is refused,
//! is kept from the local terminal, and the application is sent an error.
use crate::b64::{
    bytes_view, lenient_b64_bytes, lenient_decode, standard_b64_text, standard_encode,
};
use crate::text::{
    begins, chars_of, copy_bytes, dec, find_byte, find_char, index_of, parse_unsigned, push_bytes,
    push_chars, push_dec, same_bytes, same_text, split_once, starts_with, string_of, trim, trim_text,
    trimmed, unsigned, utf8_text,
};
use vstd::prelude::*;
use vstd::slice::slice_subrange;
use vstd::string::*;
use vstd::utf8::{decode_utf8, encode_utf8, valid_utf8};

verus! {

/// The start of an iTerm2 sequence, `ESC ] 1337 ;`.
pub const ITERM: [u8; 7] = [0x1b, 0x5d, 0x31, 0x33, 0x33, 0x37, 0x3b];

/// The start of a kitty sequence, `ESC _ G`.
pub const KITTY: [u8; 3] = [0x1b, 0x5f, 0x47];

/// The start of a device control string, `ESC P`.
pub const DCS: [u8; 2] = [0x1b, 0x50];

pub const FILE: [u8; 5] = [0x46, 0x69, 0x6c, 0x65, 0x3d];

pub const MULTIPART_FILE: [u8; 14] = [
    0x4d, 0x75, 0x6c, 0x74, 0x69, 0x70, 0x61, 0x72, 0x74, 0x46, 0x69, 0x6c, 0x65, 0x3d,
];

pub const FILE_PART: [u8; 9] = [0x46, 0x69, 0x6c, 0x65, 0x50, 0x61, 0x72, 0x74, 0x3d];

pub const FILE_END: [u8; 7] = [0x46, 0x69, 0x6c, 0x65, 0x45, 0x6e, 0x64];

/// The most bytes of one sequence that are held (64 MiB).
pub const MAX_SEQ_BYTES: usize = 67108864;

/// The most bytes of one decoded image (16 MiB).
pub const MAX_IMAGE_BYTES: usize = 16777216;

/// [`MAX_IMAGE_BYTES`] in base64.
pub const MAX_B64_BYTES: usize = 22369624;

/// The most bytes of PNG that the transcoding cache keeps (32 MiB).
pub const CACHE_CAP: usize = 33554432;

/// The kitty placeholder cell.
pub const PLACEHOLDER: char = '\u{10EEEE}';

// ---- outside calls ----

/// The width and height that `imagesize` reads from an image file.
pub uninterp spec fn blob_dims(data: Seq<u8>) -> Option<(usize, usize)>;

/// The width, height and RGBA pixels that `icy_sixel` decodes.
pub uninterp spec fn sixel_pixels(data: Seq<u8>) -> Option<(usize, usize, Seq<u8>)>;

/// The PNG file that the `png` crate writes for eight-bit pixels.
pub uninterp spec fn png_file(w: u32, h: u32, rgba: bool, pixels: Seq<u8>, fast: bool) -> Option<
    Seq<u8>,
>;

/// What `flate2` inflates a zlib stream to.
pub uninterp spec fn zlib_bytes(data: Seq<u8>) -> Option<Seq<u8>>;

/// `imagesize::blob_size`: the pixel size in the header of an image file, or `None`
/// where the crate reports an error.
#[verifier::external_body]
fn blob_size(data: &[u8]) -> (r: Option<(usize, usize)>)
    ensures
        r == blob_dims(data@),
{
    imagesize::blob_size(data).ok().map(|s| (s.width, s.height))
}

/// A decoded sixel image.
pub struct Pixels {
    pub width: usize,
    pub height: usize,
    pub rgba: Vec<u8>,
}

/// `icy_sixel::SixelImage::decode`: the size and the RGBA pixels, or `None` where the
/// crate reports an error.
#[verifier::external_body]
fn sixel_decode(data: &[u8]) -> (r: Option<Pixels>)
    ensures
        r is Some <==> sixel_pixels(data@) is Some,
        r matches Some(p) ==> sixel_pixels(data@) == Some((p.width, p.height, p.rgba@)),
{
    icy_sixel::SixelImage::decode(data).ok().map(
        |i| Pixels { width: i.width, height: i.height, rgba: i.pixels },
    )
}

/// `png::Encoder`: a PNG file of eight-bit RGB or RGBA pixels, at the default or the
/// fast compression, or `None` where the crate reports an error.
#[verifier::external_body]
fn png_write(w: u32, h: u32, rgba: bool, pixels: &[u8], fast: bool) -> (r: Option<Vec<u8>>)
    requires
        w > 0,
        h > 0,
        pixels@.len() == w * h * (if rgba {
            4int
        } else {
            3int
        }),
    ensures
        bytes_view(r) == png_file(w, h, rgba, pixels@, fast),
{
    let mut out = Vec::new();
    let mut enc = png::Encoder::new(&mut out, w, h);
    enc.set_color(if rgba { png::ColorType::Rgba } else { png::ColorType::Rgb });
    enc.set_depth(png::BitDepth::Eight);
    if fast {
        enc.set_compression(png::Compression::Fast);
    }
    let mut writer = enc.write_header().ok()?;
    writer.write_image_data(pixels).ok()?;
    writer.finish().ok()?;
    Some(out)
}

/// `flate2::read::ZlibDecoder` read to its end: the inflated bytes, or `None` where the
/// crate reports an error.
#[verifier::external_body]
fn zlib_inflate(data: &[u8]) -> (r: Option<Vec<u8>>)
    ensures
        bytes_view(r) == zlib_bytes(data@),
{
    let mut out = Vec::new();
    std::io::Read::read_to_end(&mut flate2::read::ZlibDecoder::new(data), &mut out).ok()?;
    Some(out)
}

// ---- images and steps ----

/// An extracted image, as the bytes of an image file.
#[derive(Debug, PartialEq, Eq)]
pub struct Image {
    /// The MIME type.
    pub mime: String,
    /// The file.
    pub bytes: Vec<u8>,
    /// The display size in cells (columns, rows), where the application gave one.
    pub cells: Option<(u16, u16)>,
    /// The size in pixels (width, height).
    pub px: Option<(u32, u32)>,
}

/// The model of [`Image`].
pub ghost struct ImageView {
    pub mime: Seq<char>,
    pub bytes: Seq<u8>,
    pub cells: Option<(u16, u16)>,
    pub px: Option<(u32, u32)>,
}

impl View for Image {
    type V = ImageView;

    open spec fn view(&self) -> ImageView {
        ImageView { mime: self.mime@, bytes: self.bytes@, cells: self.cells, px: self.px }
    }
}

impl Clone for Image {
    fn clone(&self) -> (r: Self)
        ensures
            r@ == self@,
    {
        Image {
            mime: self.mime.clone(),
            bytes: copy_bytes(self.bytes.as_slice()),
            cells: self.cells,
            px: self.px,
        }
    }
}

/// An image that is still to be decoded or encoded.
#[derive(Debug, PartialEq, Eq)]
pub enum DeferredPayload {
    /// A sixel sequence.
    Sixel(Vec<u8>),
    /// Raw pixels, three or four bytes each.
    Raw { pixels: Vec<u8>, channels: u8, w: u32, h: u32 },
}

/// The model of [`DeferredPayload`].
pub ghost enum PayloadView {
    Sixel(Seq<u8>),
    Raw { pixels: Seq<u8>, channels: u8, w: u32, h: u32 },
}

impl View for DeferredPayload {
    type V = PayloadView;

    open spec fn view(&self) -> PayloadView {
        match self {
            DeferredPayload::Sixel(s) => PayloadView::Sixel(s@),
            DeferredPayload::Raw { pixels, channels, w, h } => PayloadView::Raw {
                pixels: pixels@,
                channels: *channels,
                w: *w,
                h: *h,
            },
        }
    }
}

impl Clone for DeferredPayload {
    fn clone(&self) -> (r: Self)
        ensures
            r@ == self@,
    {
        match self {
            DeferredPayload::Sixel(s) => DeferredPayload::Sixel(copy_bytes(s.as_slice())),
            DeferredPayload::Raw { pixels, channels, w, h } => DeferredPayload::Raw {
                pixels: copy_bytes(pixels.as_slice()),
                channels: *channels,
                w: *w,
                h: *h,
            },
        }
    }
}

/// An image whose size is known and whose pixels are decoded later.
#[derive(Debug, PartialEq, Eq)]
pub struct DeferredImage {
    pub payload: DeferredPayload,
    /// The display size in cells, where the application gave one.
    pub cells: Option<(u16, u16)>,
    /// The size in pixels.
    pub px: (u32, u32),
}

/// The model of [`DeferredImage`].
pub ghost struct DeferredView {
    pub payload: PayloadView,
    pub cells: Option<(u16, u16)>,
    pub px: (u32, u32),
}

impl View for DeferredImage {
    type V = DeferredView;

    open spec fn view(&self) -> DeferredView {
        DeferredView { payload: self.payload@, cells: self.cells, px: self.px }
    }
}

impl Clone for DeferredImage {
    fn clone(&self) -> (r: Self)
        ensures
            r@ == self@,
    {
        DeferredImage { payload: self.payload.clone(), cells: self.cells, px: self.px }
    }
}

/// One unit of output.
#[derive(Debug, PartialEq, Eq)]
pub enum Step {
    /// Plain bytes, for the local terminal and the screen parser.
    Passthrough(Vec<u8>),
    /// Bytes for the local terminal only.
    TerminalOnly(Vec<u8>),
    /// Bytes for the local terminal, and an image to place at the cursor.
    Image(Vec<u8>, Image),
    /// Bytes for the local terminal, and an image to place now and decode later.
    Deferred(Vec<u8>, DeferredImage),
    /// A refused transfer: the error to send to the application.
    Reject(Vec<u8>),
}

/// The model of [`Step`].
pub ghost enum StepView {
    Passthrough(Seq<u8>),
    TerminalOnly(Seq<u8>),
    Image(Seq<u8>, ImageView),
    Deferred(Seq<u8>, DeferredView),
    Reject(Seq<u8>),
}

impl View for Step {
    type V = StepView;

    open spec fn view(&self) -> StepView {
        match self {
            Step::Passthrough(b) => StepView::Passthrough(b@),
            Step::TerminalOnly(b) => StepView::TerminalOnly(b@),
            Step::Image(b, i) => StepView::Image(b@, i@),
            Step::Deferred(b, d) => StepView::Deferred(b@, d@),
            Step::Reject(b) => StepView::Reject(b@),
        }
    }
}

impl Clone for Step {
    fn clone(&self) -> (r: Self)
        ensures
            r@ == self@,
    {
        match self {
            Step::Passthrough(b) => Step::Passthrough(copy_bytes(b.as_slice())),
            Step::TerminalOnly(b) => Step::TerminalOnly(copy_bytes(b.as_slice())),
            Step::Image(b, i) => Step::Image(copy_bytes(b.as_slice()), i.clone()),
            Step::Deferred(b, d) => Step::Deferred(copy_bytes(b.as_slice()), d.clone()),
            Step::Reject(b) => Step::Reject(copy_bytes(b.as_slice())),
        }
    }
}

/// The models of a sequence of steps.
pub open spec fn step_views(s: Seq<Step>) -> Seq<StepView> {
    Seq::new(s.len(), |i: int| s[i]@)
}

/// The bytes that a step shows on the local terminal.
pub open spec fn tee_of(s: StepView) -> Option<Seq<u8>> {
    match s {
        StepView::Passthrough(b) => Some(b),
        StepView::TerminalOnly(b) => Some(b),
        StepView::Image(b, _) => Some(b),
        StepView::Deferred(b, _) => Some(b),
        StepView::Reject(_) => None,
    }
}

impl Step {
    /// The bytes for the local terminal; `None` for a refused transfer.
    pub fn tee(&self) -> (r: Option<&[u8]>)
        ensures
            r is Some <==> tee_of(self@) is Some,
            r matches Some(b) ==> tee_of(self@) == Some(b@),
    {
        match self {
            Step::Passthrough(b) => Some(b.as_slice()),
            Step::TerminalOnly(b) => Some(b.as_slice()),
            Step::Image(b, _) => Some(b.as_slice()),
            Step::Deferred(b, _) => Some(b.as_slice()),
            Step::Reject(_) => None,
        }
    }
}

/// The graphics protocol that sixel images are turned into.
#[derive(Debug, Clone, Copy, PartialEq, Eq, Structural)]
pub enum GfxProto {
    Kitty,
    Iterm,
}

/// What one complete sequence became.
enum Segment {
    Image(Image),
    Deferred(DeferredImage),
    Drop,
    Reject(Vec<u8>),
    Transcoded { tee: Vec<u8>, image: Image },
}

/// The model of what one complete sequence became.
pub ghost enum SegmentView {
    /// An image.
    Image(ImageView),
    /// An image to decode later.
    Deferred(DeferredView),
    /// Nothing to mirror.
    Drop,
    /// A refusal: the answer to the application.
    Reject(Seq<u8>),
    /// An image, and other bytes for the terminal in place of the sequence.
    Transcoded { tee: Seq<u8>, image: ImageView },
}

impl Segment {
    spec fn model(&self) -> SegmentView {
        match self {
            Segment::Image(i) => SegmentView::Image(i@),
            Segment::Deferred(d) => SegmentView::Deferred(d@),
            Segment::Drop => SegmentView::Drop,
            Segment::Reject(r) => SegmentView::Reject(r@),
            Segment::Transcoded { tee, image } => SegmentView::Transcoded {
                tee: tee@,
                image: image@,
            },
        }
    }
}

/// The step that a sequence `bytes` and what it became give.
pub open spec fn tee_step(bytes: Seq<u8>, seg: SegmentView) -> StepView {
    match seg {
        SegmentView::Image(i) => StepView::Image(bytes, i),
        SegmentView::Deferred(d) => StepView::Deferred(bytes, d),
        SegmentView::Drop => StepView::TerminalOnly(bytes),
        SegmentView::Reject(r) => StepView::Reject(r),
        SegmentView::Transcoded { tee, image } => StepView::Image(tee, image),
    }
}

/// The steps for plain bytes: one, or none where there are no bytes.
pub open spec fn pass_steps(bytes: Seq<u8>) -> Seq<StepView> {
    if bytes.len() == 0 {
        Seq::empty()
    } else {
        seq![StepView::Passthrough(bytes)]
    }
}

proof fn lemma_push_step(s: Seq<Step>, x: Step)
    ensures
        step_views(s.push(x)) == step_views(s).push(x@),
{
    assert(step_views(s.push(x)) =~= step_views(s).push(x@));
}

fn push_pass(out: &mut Vec<Step>, bytes: &[u8])
    ensures
        step_views(final(out)@) == step_views(old(out)@) + pass_steps(bytes@),
{
    if bytes.len() > 0 {
        let s = Step::Passthrough(copy_bytes(bytes));
        proof {
            lemma_push_step(out@, s);
        }
        out.push(s);
    }
    assert(step_views(out@) =~= step_views(old(out)@) + pass_steps(bytes@));
}

fn push_tee(out: &mut Vec<Step>, bytes: &[u8], seg: Segment)
    ensures
        step_views(final(out)@) == step_views(old(out)@).push(tee_step(bytes@, seg.model())),
{
    let s = match seg {
        Segment::Image(i) => Step::Image(copy_bytes(bytes), i),
        Segment::Deferred(d) => Step::Deferred(copy_bytes(bytes), d),
        Segment::Drop => Step::TerminalOnly(copy_bytes(bytes)),
        Segment::Reject(r) => Step::Reject(r),
        Segment::Transcoded { tee, image } => Step::Image(tee, image),
    };
    proof {
        lemma_push_step(out@, s);
    }
    out.push(s);
}

// ---- decoding ----

/// The MIME type of an image file that a browser shows.
pub open spec fn sniffed(b: Seq<u8>) -> Option<Seq<char>> {
    if begins(b, seq![0x89u8, 0x50, 0x4e, 0x47, 0x0d, 0x0a, 0x1a, 0x0a]) {
        Some("image/png"@)
    } else if begins(b, seq![0xffu8, 0xd8, 0xff]) {
        Some("image/jpeg"@)
    } else if begins(b, seq![0x47u8, 0x49, 0x46, 0x38, 0x37, 0x61]) || begins(
        b,
        seq![0x47u8, 0x49, 0x46, 0x38, 0x39, 0x61],
    ) {
        Some("image/gif"@)
    } else if begins(b, seq![0x52u8, 0x49, 0x46, 0x46]) && b.len() >= 12 && b.subrange(8, 12)
        == seq![0x57u8, 0x45, 0x42, 0x50] {
        Some("image/webp"@)
    } else {
        None
    }
}

/// The MIME type of an image file that a browser shows.
pub fn sniff_mime(b: &[u8]) -> (r: Option<&'static str>)
    ensures
        r is Some <==> sniffed(b@) is Some,
        r matches Some(s) ==> sniffed(b@) == Some(s@),
{
    let png: [u8; 8] = [0x89, 0x50, 0x4e, 0x47, 0x0d, 0x0a, 0x1a, 0x0a];
    let jpeg: [u8; 3] = [0xff, 0xd8, 0xff];
    let gif87: [u8; 6] = [0x47, 0x49, 0x46, 0x38, 0x37, 0x61];
    let gif89: [u8; 6] = [0x47, 0x49, 0x46, 0x38, 0x39, 0x61];
    let riff: [u8; 4] = [0x52, 0x49, 0x46, 0x46];
    let webp: [u8; 4] = [0x57, 0x45, 0x42, 0x50];
    assert(png@ =~= seq![0x89u8, 0x50, 0x4e, 0x47, 0x0d, 0x0a, 0x1a, 0x0a]);
    assert(jpeg@ =~= seq![0xffu8, 0xd8, 0xff]);
    assert(gif87@ =~= seq![0x47u8, 0x49, 0x46, 0x38, 0x37, 0x61]);
    assert(gif89@ =~= seq![0x47u8, 0x49, 0x46, 0x38, 0x39, 0x61]);
    assert(riff@ =~= seq![0x52u8, 0x49, 0x46, 0x46]);
    assert(webp@ =~= seq![0x57u8, 0x45, 0x42, 0x50]);
    if starts_with(b, &png) {
        Some("image/png")
    } else if starts_with(b, &jpeg) {
        Some("image/jpeg")
    } else if starts_with(b, &gif87) || starts_with(b, &gif89) {
        Some("image/gif")
    } else if starts_with(b, &riff) && b.len() >= 12 && same_bytes(slice_subrange(b, 8, 12), &webp) {
        Some("image/webp")
    } else {
        None
    }
}

/// The pixel size in an image file's header.
pub open spec fn dims_of(b: Seq<u8>) -> Option<(u32, u32)> {
    match blob_dims(b) {
        Some((w, h)) => Some((w as u32, h as u32)),
        None => None,
    }
}

/// The pixel size in an image file's header.
fn dims(b: &[u8]) -> (r: Option<(u32, u32)>)
    ensures
        r == dims_of(b@),
{
    match blob_size(b) {
        Some((w, h)) => Some((#[verifier::truncate] (w as u32), #[verifier::truncate] (h as u32))),
        None => None,
    }
}

/// The image that base64 text holds, if it is one that a browser shows and is not too
/// large for the wire.
pub open spec fn image_of_b64(text: Seq<char>, cells: Option<(u16, u16)>) -> Option<ImageView> {
    let t = trim(text);
    if encode_utf8(t).len() > MAX_B64_BYTES {
        None
    } else {
        match lenient_b64_bytes(t) {
            Some(bytes) => match sniffed(bytes) {
                Some(mime) => Some(ImageView { mime, bytes, cells, px: dims_of(bytes) }),
                None => None,
            },
            None => None,
        }
    }
}

fn image_from_b64(text: &str, cells: Option<(u16, u16)>) -> (r: Option<Image>)
    ensures
        r is Some <==> image_of_b64(text@, cells) is Some,
        r matches Some(i) ==> image_of_b64(text@, cells) == Some(i@),
{
    let t = trim_text(text);
    if t.as_str().as_bytes().len() > MAX_B64_BYTES {
        return None;
    }
    match lenient_decode(t.as_str()) {
        Some(bytes) => match sniff_mime(bytes.as_slice()) {
            Some(mime) => {
                let px = dims(bytes.as_slice());
                Some(Image { mime: String::from_str(mime), bytes, cells, px })
            },
            None => None,
        },
        None => None,
    }
}

/// The PNG file for raw pixels: none for other than three or four bytes to a pixel, for
/// an empty image, or where pixels are missing. Bytes past the last pixel are left out.
pub open spec fn png_of(w: u32, h: u32, channels: u8, pixels: Seq<u8>, fast: bool) -> Option<Seq<u8>> {
    let need = w as int * h as int * channels as int;
    if (channels == 3 || channels == 4) && w > 0 && h > 0 && need <= pixels.len() {
        png_file(w, h, channels == 4, pixels.take(need), fast)
    } else {
        None
    }
}

/// A PNG file of raw pixels, `channels` bytes each.
pub fn encode_png(w: u32, h: u32, channels: u8, pixels: &[u8], fast: bool) -> (r: Option<Vec<u8>>)
    ensures
        bytes_view(r) == png_of(w, h, channels, pixels@, fast),
{
    if (channels != 3 && channels != 4) || w == 0 || h == 0 {
        return None;
    }
    proof {
        let c = channels as int;
        let a = w as int * h as int;
        assert(0 <= a <= 0xffff_ffff * 0xffff_ffff) by (nonlinear_arith)
            requires
                a == w as int * h as int,
                0 <= w <= 0xffff_ffff,
                0 <= h <= 0xffff_ffff,
        ;
        assert(0 <= a * c <= a * 4) by (nonlinear_arith)
            requires
                0 <= a,
                0 <= c <= 4,
        ;
    }
    let need: u128 = w as u128 * h as u128 * channels as u128;
    if need > pixels.len() as u128 {
        return None;
    }
    let used = slice_subrange(pixels, 0, need as usize);
    assert(used@ =~= pixels@.take(need as int));
    png_write(w, h, channels == 4, used, fast)
}

/// What a deferred image becomes: a PNG file and its size in pixels.
pub open spec fn finished(payload: PayloadView, fast: bool) -> Option<(Seq<u8>, (u32, u32))> {
    match payload {
        PayloadView::Sixel(seq) => match sixel_pixels(seq) {
            Some((w, h, rgba)) => if w <= u32::MAX && h <= u32::MAX {
                match png_of(w as u32, h as u32, 4, rgba, fast) {
                    Some(png) => Some((png, (w as u32, h as u32))),
                    None => None,
                }
            } else {
                None
            },
            None => None,
        },
        PayloadView::Raw { pixels, channels, w, h } => match png_of(w, h, channels, pixels, fast) {
            Some(png) => Some((png, (w, h))),
            None => None,
        },
    }
}

/// The model of a finished image.
pub open spec fn finished_view(r: Option<(Vec<u8>, (u32, u32))>) -> Option<(Seq<u8>, (u32, u32))> {
    match r {
        Some((b, px)) => Some((b@, px)),
        None => None,
    }
}

fn finish_sixel(seq: &[u8], fast: bool) -> (r: Option<(Vec<u8>, (u32, u32))>)
    ensures
        finished_view(r) == finished(PayloadView::Sixel(seq@), fast),
{
    match sixel_decode(seq) {
        Some(p) => {
            if p.width as u64 > 0xffff_ffff || p.height as u64 > 0xffff_ffff {
                return None;
            }
            let w: u32 = p.width as u32;
            let h: u32 = p.height as u32;
            match encode_png(w, h, 4, p.rgba.as_slice(), fast) {
                Some(png) => Some((png, (w, h))),
                None => None,
            }
        },
        None => None,
    }
}

/// Decode and encode a deferred image to a PNG file, with its size in pixels. `fast`
/// picks the fast compression.
pub fn finish_deferred(payload: &DeferredPayload, fast: bool) -> (r: Option<(Vec<u8>, (u32, u32))>)
    ensures
        finished_view(r) == finished(payload@, fast),
{
    match payload {
        DeferredPayload::Sixel(seq) => finish_sixel(seq.as_slice(), fast),
        DeferredPayload::Raw { pixels, channels, w, h } => match encode_png(
            *w,
            *h,
            *channels,
            pixels.as_slice(),
            fast,
        ) {
            Some(png) => Some((png, (*w, *h))),
            None => None,
        },
    }
}

// ---- control data ----

/// A name and its value.
pub type Pair = (Seq<char>, Seq<char>);

/// The `name=value` parts of `s` between the separators `sep`, in order; names and values
/// are trimmed, parts without `=` are left out.
pub open spec fn kv_pairs(s: Seq<char>, sep: char) -> Seq<Pair>
    decreases s.len(),
{
    let k = index_of(s, sep);
    let head = if 0 <= k < s.len() {
        s.take(k)
    } else {
        s
    };
    let first = match split_once(head, '=') {
        Some((n, v)) => seq![(trim(n), trim(v))],
        None => Seq::empty(),
    };
    if 0 <= k < s.len() {
        first + kv_pairs(s.skip(k + 1), sep)
    } else {
        first
    }
}

/// The value of the last pair with this name.
pub open spec fn kv_get(p: Seq<Pair>, name: Seq<char>) -> Option<Seq<char>>
    decreases p.len(),
{
    if p.len() == 0 {
        None
    } else if p.last().0 == name {
        Some(p.last().1)
    } else {
        kv_get(p.drop_last(), name)
    }
}

/// The text that bytes encode; nothing where they are not UTF-8.
pub open spec fn text_or_empty(b: Seq<u8>) -> Seq<char> {
    if valid_utf8(b) {
        decode_utf8(b)
    } else {
        Seq::empty()
    }
}

/// The control data that bytes hold.
pub open spec fn control(b: Seq<u8>, sep: char) -> Seq<Pair> {
    kv_pairs(text_or_empty(b), sep)
}

/// The models of a sequence of pairs.
pub open spec fn pair_views(s: Seq<(String, String)>) -> Seq<Pair> {
    Seq::new(s.len(), |i: int| (s[i].0@, s[i].1@))
}

/// The text that bytes encode; nothing where they are not UTF-8.
fn utf8_or_empty(b: &[u8]) -> (r: String)
    ensures
        r@ == text_or_empty(b@),
{
    match utf8_text(b) {
        Some(s) => s,
        None => String::new(),
    }
}

/// The control data that bytes hold.
fn parse_kv(b: &[u8], sep: char) -> (r: Vec<(String, String)>)
    ensures
        pair_views(r@) == control(b@, sep),
{
    let text = utf8_or_empty(b);
    let cs = chars_of(text.as_str());
    let mut out: Vec<(String, String)> = Vec::new();
    let mut at: usize = 0;
    let mut more = true;
    assert(cs@.skip(0) =~= cs@);
    assert(pair_views(out@) + kv_pairs(cs@, sep) =~= kv_pairs(cs@, sep));
    while more
        invariant
            at <= cs@.len(),
            more ==> pair_views(out@) + kv_pairs(cs@.skip(at as int), sep) == control(b@, sep),
            !more ==> pair_views(out@) == control(b@, sep),
        decreases cs@.len() - at + (if more { 1int } else { 0int }),
    {
        let rest = slice_subrange(cs.as_slice(), at, cs.len());
        assert(rest@ =~= cs@.skip(at as int));
        let k = find_char(rest, sep);
        let head = slice_subrange(rest, 0, k);
        assert(k < rest@.len() ==> head@ =~= rest@.take(k as int));
        assert(k == rest@.len() ==> head@ =~= rest@);
        let e = find_char(head, '=');
        let ghost before = pair_views(out@);
        let ghost first = match split_once(head@, '=') {
            Some((n, v)) => seq![(trim(n), trim(v))],
            None => Seq::<Pair>::empty(),
        };
        if e < head.len() {
            let n = slice_subrange(head, 0, e);
            let v = slice_subrange(head, e + 1, head.len());
            assert(n@ =~= head@.take(e as int));
            assert(v@ =~= head@.skip(e + 1));
            out.push((string_of(trimmed(n)), string_of(trimmed(v))));
        }
        assert(pair_views(out@) =~= before + first);
        if k < rest.len() {
            assert(rest@.skip(k + 1) =~= cs@.skip(at + k + 1));
            at = at + k + 1;
            assert(pair_views(out@) + kv_pairs(cs@.skip(at as int), sep) =~= before + (first
                + kv_pairs(cs@.skip(at as int), sep)));
        } else {
            more = false;
        }
    }
    out
}

/// The value of the last pair with this name.
fn kv_find<'a>(kv: &'a Vec<(String, String)>, name: &str) -> (r: Option<&'a String>)
    ensures
        text_view(r) == kv_get(pair_views(kv@), name@),
{
    let mut i: usize = kv.len();
    assert(pair_views(kv@).take(i as int) =~= pair_views(kv@));
    while i > 0
        invariant
            i <= kv.len(),
            kv_get(pair_views(kv@), name@) == kv_get(pair_views(kv@).take(i as int), name@),
        decreases i,
    {
        i -= 1;
        let ghost p = pair_views(kv@).take(i + 1);
        assert(p.drop_last() =~= pair_views(kv@).take(i as int));
        assert(p.last() == (kv@[i as int].0@, kv@[i as int].1@));
        if same_text(kv[i].0.as_str(), name) {
            return Some(&kv[i].1);
        }
    }
    None
}

/// The text of an optional string.
pub open spec fn text_view(r: Option<&String>) -> Option<Seq<char>> {
    match r {
        Some(s) => Some(s@),
        None => None,
    }
}

/// A number of at least one in sixteen bits.
pub open spec fn nonzero_u16(s: Option<Seq<char>>) -> Option<u16> {
    match s {
        Some(t) => match unsigned(t, 65535) {
            Some(v) => if v > 0 {
                Some(v as u16)
            } else {
                None
            },
            None => None,
        },
        None => None,
    }
}

/// A size hint: only where both numbers are plain and not zero.
pub open spec fn size_hint(c: Option<Seq<char>>, r: Option<Seq<char>>) -> Option<(u16, u16)> {
    match (nonzero_u16(c), nonzero_u16(r)) {
        (Some(c), Some(r)) => Some((c, r)),
        _ => None,
    }
}

fn read_nonzero_u16(s: Option<&String>) -> (r: Option<u16>)
    ensures
        r == nonzero_u16(text_view(s)),
{
    match s {
        Some(t) => {
            let cs = chars_of(t.as_str());
            match parse_unsigned(cs.as_slice(), 65535) {
                Some(v) => if v > 0 {
                    Some(v as u16)
                } else {
                    None
                },
                None => None,
            }
        },
        None => None,
    }
}

fn cells_from(c: Option<&String>, r: Option<&String>) -> (h: Option<(u16, u16)>)
    ensures
        h == size_hint(text_view(c), text_view(r)),
{
    match (read_nonzero_u16(c), read_nonzero_u16(r)) {
        (Some(c), Some(r)) => Some((c, r)),
        _ => None,
    }
}

/// A `usize` in decimal.
pub open spec fn read_size(s: Option<Seq<char>>) -> Option<usize> {
    match s {
        Some(t) => match unsigned(t, usize::MAX as nat) {
            Some(v) => Some(v as usize),
            None => None,
        },
        None => None,
    }
}

fn size_from(s: Option<&String>) -> (r: Option<usize>)
    ensures
        r == read_size(text_view(s)),
{
    match s {
        Some(t) => {
            let cs = chars_of(t.as_str());
            match parse_unsigned(cs.as_slice(), usize::MAX as u64) {
                Some(v) => Some(v as usize),
                None => None,
            }
        },
        None => None,
    }
}

fn is_text(s: Option<&String>, t: &str) -> (r: bool)
    ensures
        r == (text_view(s) == Some(t@)),
{
    match s {
        Some(x) => same_text(x.as_str(), t),
        None => false,
    }
}

// ---- transfers in several parts ----

/// How kitty pixels are coded.
#[derive(Clone, Copy, PartialEq, Eq, Structural)]
pub enum KittyFmt {
    Png,
    Rgba,
    Rgb,
    Unsupported,
}

/// How kitty data travels.
#[derive(Clone, Copy, PartialEq, Eq, Structural)]
pub enum KittyMedium {
    Direct,
    File,
    Shm,
    Unsupported,
}

struct KittyAccum {
    payload: String,
    display: bool,
    over: bool,
    cells: Option<(u16, u16)>,
    fmt: KittyFmt,
    px: Option<(u32, u32)>,
    zlib: bool,
    medium: KittyMedium,
    size: Option<usize>,
    offset: usize,
}

/// A kitty transfer so far.
pub ghost struct KittyState {
    pub payload: Seq<char>,
    /// Transmit and display (`a=T`).
    pub display: bool,
    /// The payload outgrew [`MAX_B64_BYTES`].
    pub over: bool,
    pub cells: Option<(u16, u16)>,
    pub fmt: KittyFmt,
    pub px: Option<(u32, u32)>,
    pub zlib: bool,
    pub medium: KittyMedium,
    pub size: Option<usize>,
    pub offset: usize,
}

struct ItermAccum {
    payload: String,
    cells: Option<(u16, u16)>,
    over: bool,
}

/// An iTerm2 transfer in parts, so far.
pub ghost struct ItermState {
    pub payload: Seq<char>,
    pub cells: Option<(u16, u16)>,
    pub over: bool,
}

/// Whether a payload and one more part are too large together.
pub open spec fn too_large(payload: Seq<char>, part: Seq<char>) -> bool {
    encode_utf8(payload).len() + encode_utf8(part).len() > MAX_B64_BYTES
}

fn exceeds(payload: &str, part: &str) -> (r: bool)
    ensures
        r == too_large(payload@, part@),
{
    let a: usize = payload.as_bytes().len();
    let b: usize = part.as_bytes().len();
    a > MAX_B64_BYTES || b > MAX_B64_BYTES - a
}

impl KittyState {
    /// The transfer with one more part.
    pub open spec fn absorbed(self, part: Seq<char>) -> KittyState {
        if self.over || too_large(self.payload, part) {
            KittyState { over: true, payload: Seq::empty(), ..self }
        } else {
            KittyState { payload: self.payload + part, ..self }
        }
    }
}

impl ItermState {
    /// The transfer with one more part.
    pub open spec fn absorbed(self, part: Seq<char>) -> ItermState {
        if self.over || too_large(self.payload, part) {
            ItermState { over: true, payload: Seq::empty(), ..self }
        } else {
            ItermState { payload: self.payload + part, ..self }
        }
    }
}

/// The transfer that a kitty sequence with these keys opens.
pub open spec fn kitty_opened(ctrl: Seq<Pair>) -> KittyState {
    KittyState {
        payload: Seq::empty(),
        display: kv_get(ctrl, "a"@) == Some("T"@),
        over: false,
        cells: size_hint(kv_get(ctrl, "c"@), kv_get(ctrl, "r"@)),
        fmt: match kv_get(ctrl, "f"@) {
            None => KittyFmt::Rgba,
            Some(f) => if f == "100"@ {
                KittyFmt::Png
            } else if f == "32"@ {
                KittyFmt::Rgba
            } else if f == "24"@ {
                KittyFmt::Rgb
            } else {
                KittyFmt::Unsupported
            },
        },
        px: match size_hint(kv_get(ctrl, "s"@), kv_get(ctrl, "v"@)) {
            Some((w, h)) => Some((w as u32, h as u32)),
            None => None,
        },
        zlib: kv_get(ctrl, "o"@) == Some("z"@),
        medium: match kv_get(ctrl, "t"@) {
            None => KittyMedium::Direct,
            Some(t) => if t == "d"@ {
                KittyMedium::Direct
            } else if t == "f"@ || t == "t"@ {
                KittyMedium::File
            } else if t == "s"@ {
                KittyMedium::Shm
            } else {
                KittyMedium::Unsupported
            },
        },
        size: read_size(kv_get(ctrl, "S"@)),
        offset: match read_size(kv_get(ctrl, "O"@)) {
            Some(o) => o,
            None => 0,
        },
    }
}

impl KittyAccum {
    spec fn model(&self) -> KittyState {
        KittyState {
            payload: self.payload@,
            display: self.display,
            over: self.over,
            cells: self.cells,
            fmt: self.fmt,
            px: self.px,
            zlib: self.zlib,
            medium: self.medium,
            size: self.size,
            offset: self.offset,
        }
    }

    fn open(ctrl: &Vec<(String, String)>) -> (r: KittyAccum)
        ensures
            r.model() == kitty_opened(pair_views(ctrl@)),
    {
        let f = kv_find(ctrl, "f");
        let fmt = if is_text(f, "100") {
            KittyFmt::Png
        } else if f.is_none() || is_text(f, "32") {
            KittyFmt::Rgba
        } else if is_text(f, "24") {
            KittyFmt::Rgb
        } else {
            KittyFmt::Unsupported
        };
        let t = kv_find(ctrl, "t");
        let medium = if t.is_none() || is_text(t, "d") {
            KittyMedium::Direct
        } else if is_text(t, "f") || is_text(t, "t") {
            KittyMedium::File
        } else if is_text(t, "s") {
            KittyMedium::Shm
        } else {
            KittyMedium::Unsupported
        };
        proof {
            reveal_strlit("100");
            reveal_strlit("32");
            reveal_strlit("24");
        }
        KittyAccum {
            payload: String::new(),
            display: is_text(kv_find(ctrl, "a"), "T"),
            over: false,
            cells: cells_from(kv_find(ctrl, "c"), kv_find(ctrl, "r")),
            fmt,
            px: match cells_from(kv_find(ctrl, "s"), kv_find(ctrl, "v")) {
                Some((w, h)) => Some((w as u32, h as u32)),
                None => None,
            },
            zlib: is_text(kv_find(ctrl, "o"), "z"),
            medium,
            size: size_from(kv_find(ctrl, "S")),
            offset: match size_from(kv_find(ctrl, "O")) {
                Some(o) => o,
                None => 0,
            },
        }
    }

    fn absorb(&mut self, part: &str)
        ensures
            final(self).model() == old(self).model().absorbed(part@),
    {
        if self.over || exceeds(self.payload.as_str(), part) {
            self.over = true;
            self.payload = String::new();
        } else {
            self.payload.append(part);
        }
    }
}

impl ItermAccum {
    spec fn model(&self) -> ItermState {
        ItermState { payload: self.payload@, cells: self.cells, over: self.over }
    }

    fn absorb(&mut self, part: &str)
        ensures
            final(self).model() == old(self).model().absorbed(part@),
    {
        if self.over || exceeds(self.payload.as_str(), part) {
            self.over = true;
            self.payload = String::new();
        } else {
            self.payload.append(part);
        }
    }
}

/// The part of the data that the size and offset keys name.
pub open spec fn window(bytes: Seq<u8>, size: Option<usize>, offset: usize) -> Option<Seq<u8>> {
    match size {
        None => Some(bytes),
        Some(n) => if offset + n <= bytes.len() {
            Some(bytes.subrange(offset as int, offset + n))
        } else {
            None
        },
    }
}

/// The bytes of a direct kitty transfer: decoded, cut to its window, inflated, and not
/// larger than [`MAX_IMAGE_BYTES`].
pub open spec fn kitty_data(acc: KittyState) -> Option<Seq<u8>> {
    match lenient_b64_bytes(trim(acc.payload)) {
        None => None,
        Some(all) => match window(all, acc.size, acc.offset) {
            None => None,
            Some(part) => {
                let data = if acc.zlib {
                    zlib_bytes(part)
                } else {
                    Some(part)
                };
                match data {
                    Some(b) => if b.len() <= MAX_IMAGE_BYTES {
                        Some(b)
                    } else {
                        None
                    },
                    None => None,
                }
            },
        },
    }
}

/// What a complete direct kitty transfer becomes.
pub open spec fn kitty_image(acc: KittyState) -> SegmentView {
    if acc.fmt == KittyFmt::Unsupported {
        SegmentView::Drop
    } else {
        match kitty_data(acc) {
            None => SegmentView::Drop,
            Some(bytes) => if acc.fmt == KittyFmt::Png {
                match sniffed(bytes) {
                    Some(mime) => SegmentView::Image(
                        ImageView { mime, bytes, cells: acc.cells, px: dims_of(bytes) },
                    ),
                    None => SegmentView::Drop,
                }
            } else {
                match acc.px {
                    Some((w, h)) => SegmentView::Deferred(
                        DeferredView {
                            payload: PayloadView::Raw {
                                pixels: bytes,
                                channels: if acc.fmt == KittyFmt::Rgba {
                                    4
                                } else {
                                    3
                                },
                                w,
                                h,
                            },
                            cells: acc.cells,
                            px: (w, h),
                        },
                    ),
                    None => SegmentView::Drop,
                }
            },
        }
    }
}

fn kitty_direct_image(acc: KittyAccum) -> (r: Segment)
    ensures
        r.model() == kitty_image(acc.model()),
{
    if acc.fmt == KittyFmt::Unsupported {
        return Segment::Drop;
    }
    let t = trim_text(acc.payload.as_str());
    let mut bytes = match lenient_decode(t.as_str()) {
        Some(b) => b,
        None => return Segment::Drop,
    };
    if let Some(n) = acc.size {
        if acc.offset > bytes.len() || n > bytes.len() - acc.offset {
            return Segment::Drop;
        }
        bytes = copy_bytes(slice_subrange(bytes.as_slice(), acc.offset, acc.offset + n));
    }
    if acc.zlib {
        match zlib_inflate(bytes.as_slice()) {
            Some(b) => bytes = b,
            None => return Segment::Drop,
        }
    }
    if bytes.len() > MAX_IMAGE_BYTES {
        return Segment::Drop;
    }
    assert(kitty_data(acc.model()) == Some(bytes@));
    if acc.fmt == KittyFmt::Png {
        match sniff_mime(bytes.as_slice()) {
            Some(mime) => {
                let px = dims(bytes.as_slice());
                Segment::Image(Image { mime: String::from_str(mime), bytes, cells: acc.cells, px })
            },
            None => Segment::Drop,
        }
    } else {
        match acc.px {
            Some((w, h)) => Segment::Deferred(
                DeferredImage {
                    payload: DeferredPayload::Raw {
                        pixels: bytes,
                        channels: if acc.fmt == KittyFmt::Rgba {
                            4
                        } else {
                            3
                        },
                        w,
                        h,
                    },
                    cells: acc.cells,
                    px: (w, h),
                },
            ),
            None => Segment::Drop,
        }
    }
}

/// The keys that name the refused transfer: its id and its number.
pub open spec fn refusal_keys(ctrl: Seq<Pair>) -> Seq<char> {
    let i = match kv_get(ctrl, "i"@) {
        Some(v) => "i="@ + v,
        None => Seq::empty(),
    };
    match kv_get(ctrl, "I"@) {
        Some(n) => if i.len() > 0 {
            i.push(',') + "I="@ + n
        } else {
            "I="@ + n
        },
        None => i,
    }
}

/// The error that answers a refused transfer.
pub open spec fn kitty_refusal(ctrl: Seq<Pair>) -> Seq<char> {
    "\x1b_G"@ + refusal_keys(ctrl) + ";EBADF:file transmission not supported\x1b\\"@
}

fn kitty_reject(ctrl: &Vec<(String, String)>) -> (r: Vec<u8>)
    ensures
        r@ == encode_utf8(kitty_refusal(pair_views(ctrl@))),
{
    let mut out = String::from_str("\x1b_G");
    let ghost mut keys: Seq<char> = Seq::empty();
    let mut some = false;
    proof {
        reveal_strlit("i=");
    }
    if let Some(v) = kv_find(ctrl, "i") {
        out.append("i=");
        out.append(v.as_str());
        some = true;
        proof {
            keys = "i="@ + v@;
        }
    }
    assert(out@ =~= "\x1b_G"@ + keys);
    if let Some(n) = kv_find(ctrl, "I") {
        if some {
            out.push(',');
            proof {
                keys = keys.push(',');
            }
        }
        out.append("I=");
        out.append(n.as_str());
        proof {
            keys = keys + "I="@ + n@;
        }
    }
    assert(keys =~= refusal_keys(pair_views(ctrl@)));
    assert(out@ =~= "\x1b_G"@ + keys);
    out.append(";EBADF:file transmission not supported\x1b\\");
    out.as_str().as_bytes_vec()
}

/// What a complete kitty transfer becomes. The file and shared-memory mediums are refused;
/// what is not displayed, too large or of an unknown medium is not mirrored.
pub open spec fn kitty_flushed(acc: KittyState, ctrl: Seq<Pair>) -> SegmentView {
    if acc.medium == KittyMedium::File || acc.medium == KittyMedium::Shm {
        SegmentView::Reject(encode_utf8(kitty_refusal(ctrl)))
    } else if !acc.display || acc.over || acc.medium != KittyMedium::Direct {
        SegmentView::Drop
    } else {
        kitty_image(acc)
    }
}

// ---- iTerm2 ----

/// A sequence body without its terminator.
pub open spec fn unterminated(body: Seq<u8>) -> Seq<u8> {
    let n = body.len() as int;
    if n >= 2 && body[n - 2] == 0x1b && body[n - 1] == 0x5c {
        body.take(n - 2)
    } else if n >= 1 && body[n - 1] == 0x07 {
        body.take(n - 1)
    } else {
        body
    }
}

fn strip_terminator(body: &[u8]) -> (r: &[u8])
    ensures
        r@ == unterminated(body@),
{
    let n: usize = body.len();
    let m: usize = if n >= 2 && body[n - 2] == 0x1b && body[n - 1] == 0x5c {
        n - 2
    } else if n >= 1 && body[n - 1] == 0x07 {
        n - 1
    } else {
        n
    };
    let r = slice_subrange(body, 0, m);
    assert(r@ =~= unterminated(body@));
    r
}

/// The image of a single iTerm2 `File=` transfer: parameters, a colon, base64. Only an
/// inline one is shown.
pub open spec fn iterm_file(args: Seq<u8>) -> Option<ImageView> {
    let k = index_of(args, 0x3au8);
    if k < args.len() && valid_utf8(args.skip(k + 1)) {
        let kv = control(args.take(k), ';');
        if kv_get(kv, "inline"@) == Some("1"@) {
            image_of_b64(
                trim(decode_utf8(args.skip(k + 1))),
                size_hint(kv_get(kv, "width"@), kv_get(kv, "height"@)),
            )
        } else {
            None
        }
    } else {
        None
    }
}

fn iterm_single(args: &[u8]) -> (r: Option<Image>)
    ensures
        r is Some <==> iterm_file(args@) is Some,
        r matches Some(i) ==> iterm_file(args@) == Some(i@),
{
    let k = find_byte(args, 0x3a);
    if k >= args.len() {
        return None;
    }
    let tail = slice_subrange(args, k + 1, args.len());
    let head = slice_subrange(args, 0, k);
    assert(tail@ =~= args@.skip(k + 1));
    assert(head@ =~= args@.take(k as int));
    match utf8_text(tail) {
        Some(text) => {
            let kv = parse_kv(head, ';');
            if !is_text(kv_find(&kv, "inline"), "1") {
                return None;
            }
            let cells = cells_from(kv_find(&kv, "width"), kv_find(&kv, "height"));
            let t = trim_text(text.as_str());
            image_from_b64(t.as_str(), cells)
        },
        None => None,
    }
}

// ---- sixel ----

/// The place of the first byte from `j` on that is no digit and no semicolon.
pub open spec fn params_end(s: Seq<u8>, j: int) -> int
    decreases s.len() - j,
{
    if 0 <= j < s.len() && (0x30 <= s[j] <= 0x39 || s[j] == 0x3b) {
        params_end(s, j + 1)
    } else {
        j
    }
}

/// Whether a device control string is sixel: numeric parameters, then `q`. `None` where
/// the parameters reach the end of what is there.
pub open spec fn dcs_is_sixel(s: Seq<u8>) -> Option<bool> {
    let j = params_end(s, 2);
    if j < s.len() {
        Some(s[j] == 0x71)
    } else {
        None
    }
}

/// Whether a device control string is sixel; `None` where more bytes are needed.
pub fn sixel_dcs(s: &[u8]) -> (r: Option<bool>)
    ensures
        r == dcs_is_sixel(s@),
{
    if s.len() < 2 {
        return None;
    }
    let mut j: usize = 2;
    while j < s.len() && ((0x30 <= s[j] && s[j] <= 0x39) || s[j] == 0x3b)
        invariant
            2 <= j <= s@.len(),
            params_end(s@, 2) == params_end(s@, j as int),
        decreases s@.len() - j,
    {
        j += 1;
    }
    if j < s.len() {
        Some(s[j] == 0x71)
    } else {
        None
    }
}

/// How many digits begin `s`.
pub open spec fn digit_run(s: Seq<u8>) -> int
    decreases s.len(),
{
    if s.len() > 0 && 0x30 <= s[0] <= 0x39 {
        1 + digit_run(s.drop_first())
    } else {
        0
    }
}

/// The number that digits spell.
pub open spec fn decimal(d: Seq<u8>) -> nat
    decreases d.len(),
{
    if d.len() == 0 {
        0
    } else {
        decimal(d.drop_last()) * 10 + (if d.last() >= 0x30 {
            (d.last() - 0x30) as nat
        } else {
            0
        })
    }
}

/// The number that digits spell; the largest that 32 bits hold where it is larger.
pub open spec fn raster_number(d: Seq<u8>) -> u32 {
    if decimal(d) > u32::MAX {
        u32::MAX
    } else {
        decimal(d) as u32
    }
}

/// The `k`-th of the numbers between semicolons that begin `s`; zero where it is missing.
pub open spec fn raster_param(s: Seq<u8>, k: nat) -> u32
    decreases k,
{
    let j = digit_run(s);
    if k == 0 {
        raster_number(s.take(j))
    } else if j < s.len() && s[j] == 0x3b {
        raster_param(s.skip(j + 1), (k - 1) as nat)
    } else {
        0
    }
}

/// The pixel size in a sixel sequence's raster attributes, `" Pan ; Pad ; Ph ; Pv` right
/// after the first `q`.
pub open spec fn raster_dims(seq: Seq<u8>) -> Option<(u32, u32)> {
    let q = index_of(seq, 0x71u8);
    if q + 1 < seq.len() && seq[q + 1] == 0x22 {
        let s = seq.skip(q + 2);
        if raster_param(s, 2) > 0 && raster_param(s, 3) > 0 {
            Some((raster_param(s, 2), raster_param(s, 3)))
        } else {
            None
        }
    } else {
        None
    }
}

proof fn lemma_digit_run(s: Seq<u8>, k: int)
    requires
        0 <= k <= s.len(),
        forall|i: int| 0 <= i < k ==> 0x30 <= #[trigger] s[i] <= 0x39,
        k < s.len() ==> !(0x30 <= s[k] <= 0x39),
    ensures
        digit_run(s) == k,
    decreases k,
{
    if k > 0 {
        let r = s.drop_first();
        assert(0x30 <= s[0] <= 0x39);
        assert forall|i: int| 0 <= i < k - 1 implies 0x30 <= #[trigger] r[i] <= 0x39 by {
            assert(r[i] == s[i + 1]);
        }
        lemma_digit_run(r, k - 1);
    }
}

/// Read the number that begins `s`, and how many digits it has.
fn raster_read(s: &[u8]) -> (r: (u32, usize))
    ensures
        r.0 == raster_number(s@.take(digit_run(s@))),
        r.1 == digit_run(s@),
        r.1 <= s@.len(),
{
    let mut v: u32 = 0;
    let mut i: usize = 0;
    while i < s.len() && 0x30 <= s[i] && s[i] <= 0x39
        invariant
            i <= s@.len(),
            v == raster_number(s@.take(i as int)),
            forall|j: int| 0 <= j < i ==> 0x30 <= #[trigger] s@[j] <= 0x39,
        decreases s@.len() - i,
    {
        let sum: u64 = v as u64 * 10 + (s[i] - 0x30) as u64;
        v = if sum > 0xffff_ffff {
            0xffff_ffff
        } else {
            sum as u32
        };
        i += 1;
        assert(s@.take(i as int).drop_last() =~= s@.take(i - 1));
    }
    proof {
        lemma_digit_run(s@, i as int);
    }
    (v, i)
}

fn read_raster_param(s: &[u8], k: u8) -> (r: u32)
    ensures
        r == raster_param(s@, k as nat),
    decreases k,
{
    let (v, j) = raster_read(s);
    if k == 0 {
        v
    } else if j < s.len() && s[j] == 0x3b {
        let t = slice_subrange(s, j + 1, s.len());
        assert(t@ =~= s@.skip(j + 1));
        read_raster_param(t, k - 1)
    } else {
        0
    }
}

fn sixel_raster_dims(seq: &[u8]) -> (r: Option<(u32, u32)>)
    ensures
        r == raster_dims(seq@),
{
    let q = find_byte(seq, 0x71);
    if q < seq.len() && q + 1 < seq.len() && seq[q + 1] == 0x22 {
        let s = slice_subrange(seq, q + 2, seq.len());
        assert(s@ =~= seq@.skip(q + 2));
        let w = read_raster_param(s, 2);
        let h = read_raster_param(s, 3);
        if w > 0 && h > 0 {
            return Some((w, h));
        }
    }
    None
}

/// What a sixel sequence becomes: deferred where it declares its size, else decoded.
pub open spec fn sixel_segment(seq: Seq<u8>) -> SegmentView {
    match raster_dims(seq) {
        Some(px) => SegmentView::Deferred(
            DeferredView { payload: PayloadView::Sixel(seq), cells: None, px },
        ),
        None => match finished(PayloadView::Sixel(seq), false) {
            Some((png, px)) => SegmentView::Image(
                ImageView { mime: "image/png"@, bytes: png, cells: None, px: Some(px) },
            ),
            None => SegmentView::Drop,
        },
    }
}

fn sixel_image(seq: &[u8]) -> (r: Segment)
    ensures
        r.model() == sixel_segment(seq@),
{
    match sixel_raster_dims(seq) {
        Some(px) => Segment::Deferred(
            DeferredImage { payload: DeferredPayload::Sixel(copy_bytes(seq)), cells: None, px },
        ),
        None => match finish_sixel(seq, false) {
            Some((png, px)) => Segment::Image(
                Image { mime: String::from_str("image/png"), bytes: png, cells: None, px: Some(px) },
            ),
            None => Segment::Drop,
        },
    }
}

// ---- transcoding ----

/// The combining characters that number a placeholder's row and column.
pub const DIACRITICS: [char; 297] = [
    '\u{305}', '\u{30D}', '\u{30E}', '\u{310}', '\u{312}', '\u{33D}', '\u{33E}', '\u{33F}',
    '\u{346}', '\u{34A}', '\u{34B}', '\u{34C}', '\u{350}', '\u{351}', '\u{352}', '\u{357}',
    '\u{35B}', '\u{363}', '\u{364}', '\u{365}', '\u{366}', '\u{367}', '\u{368}', '\u{369}',
    '\u{36A}', '\u{36B}', '\u{36C}', '\u{36D}', '\u{36E}', '\u{36F}', '\u{483}', '\u{484}',
    '\u{485}', '\u{486}', '\u{487}', '\u{592}', '\u{593}', '\u{594}', '\u{595}', '\u{597}',
    '\u{598}', '\u{599}', '\u{59C}', '\u{59D}', '\u{59E}', '\u{59F}', '\u{5A0}', '\u{5A1}',
    '\u{5A8}', '\u{5A9}', '\u{5AB}', '\u{5AC}', '\u{5AF}', '\u{5C4}', '\u{610}', '\u{611}',
    '\u{612}', '\u{613}', '\u{614}', '\u{615}', '\u{616}', '\u{617}', '\u{657}', '\u{658}',
    '\u{659}', '\u{65A}', '\u{65B}', '\u{65D}', '\u{65E}', '\u{6D6}', '\u{6D7}', '\u{6D8}',
    '\u{6D9}', '\u{6DA}', '\u{6DB}', '\u{6DC}', '\u{6DF}', '\u{6E0}', '\u{6E1}', '\u{6E2}',
    '\u{6E4}', '\u{6E7}', '\u{6E8}', '\u{6EB}', '\u{6EC}', '\u{730}', '\u{732}', '\u{733}',
    '\u{735}', '\u{736}', '\u{73A}', '\u{73D}', '\u{73F}', '\u{740}', '\u{741}', '\u{743}',
    '\u{745}', '\u{747}', '\u{749}', '\u{74A}', '\u{7EB}', '\u{7EC}', '\u{7ED}', '\u{7EE}',
    '\u{7EF}', '\u{7F0}', '\u{7F1}', '\u{7F3}', '\u{816}', '\u{817}', '\u{818}', '\u{819}',
    '\u{81B}', '\u{81C}', '\u{81D}', '\u{81E}', '\u{81F}', '\u{820}', '\u{821}', '\u{822}',
    '\u{823}', '\u{825}', '\u{826}', '\u{827}', '\u{829}', '\u{82A}', '\u{82B}', '\u{82C}',
    '\u{82D}', '\u{951}', '\u{953}', '\u{954}', '\u{F82}', '\u{F83}', '\u{F86}', '\u{F87}',
    '\u{135D}', '\u{135E}', '\u{135F}', '\u{17DD}', '\u{193A}', '\u{1A17}', '\u{1A75}',
    '\u{1A76}', '\u{1A77}', '\u{1A78}', '\u{1A79}', '\u{1A7A}', '\u{1A7B}', '\u{1A7C}',
    '\u{1B6B}', '\u{1B6D}', '\u{1B6E}', '\u{1B6F}', '\u{1B70}', '\u{1B71}', '\u{1B72}',
    '\u{1B73}', '\u{1CD0}', '\u{1CD1}', '\u{1CD2}', '\u{1CDA}', '\u{1CDB}', '\u{1CE0}',
    '\u{1DC0}', '\u{1DC1}', '\u{1DC3}', '\u{1DC4}', '\u{1DC5}', '\u{1DC6}', '\u{1DC7}',
    '\u{1DC8}', '\u{1DC9}', '\u{1DCB}', '\u{1DCC}', '\u{1DD1}', '\u{1DD2}', '\u{1DD3}',
    '\u{1DD4}', '\u{1DD5}', '\u{1DD6}', '\u{1DD7}', '\u{1DD8}', '\u{1DD9}', '\u{1DDA}',
    '\u{1DDB}', '\u{1DDC}', '\u{1DDD}', '\u{1DDE}', '\u{1DDF}', '\u{1DE0}', '\u{1DE1}',
    '\u{1DE2}', '\u{1DE3}', '\u{1DE4}', '\u{1DE5}', '\u{1DE6}', '\u{1DFE}', '\u{20D0}',
    '\u{20D1}', '\u{20D4}', '\u{20D5}', '\u{20D6}', '\u{20D7}', '\u{20DB}', '\u{20DC}',
    '\u{20E1}', '\u{20E7}', '\u{20E9}', '\u{20F0}', '\u{2CEF}', '\u{2CF0}', '\u{2CF1}',
    '\u{2DE0}', '\u{2DE1}', '\u{2DE2}', '\u{2DE3}', '\u{2DE4}', '\u{2DE5}', '\u{2DE6}',
    '\u{2DE7}', '\u{2DE8}', '\u{2DE9}', '\u{2DEA}', '\u{2DEB}', '\u{2DEC}', '\u{2DED}',
    '\u{2DEE}', '\u{2DEF}', '\u{2DF0}', '\u{2DF1}', '\u{2DF2}', '\u{2DF3}', '\u{2DF4}',
    '\u{2DF5}', '\u{2DF6}', '\u{2DF7}', '\u{2DF8}', '\u{2DF9}', '\u{2DFA}', '\u{2DFB}',
    '\u{2DFC}', '\u{2DFD}', '\u{2DFE}', '\u{2DFF}', '\u{A66F}', '\u{A67C}', '\u{A67D}',
    '\u{A6F0}', '\u{A6F1}', '\u{A8E0}', '\u{A8E1}', '\u{A8E2}', '\u{A8E3}', '\u{A8E4}',
    '\u{A8E5}', '\u{A8E6}', '\u{A8E7}', '\u{A8E8}', '\u{A8E9}', '\u{A8EA}', '\u{A8EB}',
    '\u{A8EC}', '\u{A8ED}', '\u{A8EE}', '\u{A8EF}', '\u{A8F0}', '\u{A8F1}', '\u{AAB0}',
    '\u{AAB2}', '\u{AAB3}', '\u{AAB7}', '\u{AAB8}', '\u{AABE}', '\u{AABF}', '\u{AAC1}',
    '\u{FE20}', '\u{FE21}', '\u{FE22}', '\u{FE23}', '\u{FE24}', '\u{FE25}', '\u{FE26}',
    '\u{10A0F}', '\u{10A38}', '\u{1D185}', '\u{1D186}', '\u{1D187}', '\u{1D188}', '\u{1D189}',
    '\u{1D1AA}', '\u{1D1AB}', '\u{1D1AC}', '\u{1D1AD}', '\u{1D242}', '\u{1D243}', '\u{1D244}',
];

/// `n` pixels in cells of `c` pixels: at least one cell, at most as many as there are
/// combining characters.
pub open spec fn cell_count(n: u32, c: u16) -> u16 {
    let d = if c == 0 {
        1
    } else {
        c as int
    };
    let k = (n + d - 1) / d;
    if k < 1 {
        1
    } else if k > 297 {
        297
    } else {
        k as u16
    }
}

fn clamp_cells(n: u32, c: u16) -> (r: u16)
    ensures
        r == cell_count(n, c),
        1 <= r <= 297,
{
    let d: u64 = if c == 0 {
        1
    } else {
        c as u64
    };
    let k: u64 = (n as u64 + d - 1) / d;
    if k < 1 {
        1
    } else if k > 297 {
        297
    } else {
        k as u16
    }
}

/// The cells that an image of this size covers.
fn cells_for(w: u32, h: u32, cell: (u16, u16)) -> (r: (u16, u16))
    ensures
        r == (cell_count(w, cell.0), cell_count(h, cell.1)),
        1 <= r.0 <= 297,
        1 <= r.1 <= 297,
{
    (clamp_cells(w, cell.0), clamp_cells(h, cell.1))
}

/// The keys of the first part of a placeholder image's data.
pub open spec fn transmit_keys(id: u32, cells: (u16, u16)) -> Seq<char> {
    "a=T,U=1,i="@ + dec(id as nat) + ",f=100,c="@ + dec(cells.0 as nat) + ",r="@ + dec(
        cells.1 as nat,
    ) + ",q=2,m="@
}

/// One part of a kitty transfer.
pub open spec fn transmission_part(
    first: bool,
    id: u32,
    cells: (u16, u16),
    more: bool,
    part: Seq<char>,
) -> Seq<char> {
    "\x1b_G"@ + (if first {
        transmit_keys(id, cells)
    } else {
        "m="@
    }) + (if more {
        "1;"@
    } else {
        "0;"@
    }) + part + "\x1b\\"@
}

/// A kitty transfer of base64 text in parts of at most 4096 characters.
pub open spec fn transmission(first: bool, id: u32, cells: (u16, u16), b64: Seq<char>) -> Seq<char>
    decreases b64.len(),
{
    if b64.len() == 0 {
        Seq::empty()
    } else if b64.len() > 4096 {
        transmission_part(first, id, cells, true, b64.take(4096)) + transmission(
            false,
            id,
            cells,
            b64.skip(4096),
        )
    } else {
        transmission_part(first, id, cells, false, b64)
    }
}

/// The first `n` placeholder cells of a row.
pub open spec fn placeholder_cells(row: int, n: nat) -> Seq<char>
    decreases n,
{
    if n == 0 {
        Seq::empty()
    } else {
        placeholder_cells(row, (n - 1) as nat) + seq![
            PLACEHOLDER,
            DIACRITICS@[row],
            DIACRITICS@[n - 1],
        ]
    }
}

/// The first `n` placeholder rows; after each the cursor goes back and down.
pub open spec fn placeholder_rows(n: nat, cols: u16) -> Seq<char>
    decreases n,
{
    if n == 0 {
        Seq::empty()
    } else {
        placeholder_rows((n - 1) as nat, cols) + placeholder_cells(n - 1, cols as nat) + "\x1b["@
            + dec(cols as nat) + "D\x1b[1B"@
    }
}

/// A kitty image on placeholder cells: its data, if it is new to the terminal, and the
/// cells, coloured with its number.
pub open spec fn placeholder_text(id: u32, cells: (u16, u16), b64: Option<Seq<char>>) -> Seq<char> {
    (match b64 {
        Some(t) => transmission(true, id, cells, t),
        None => Seq::empty(),
    }) + "\x1b[38;2;"@ + dec((id / 65536 % 256) as nat) + ";"@ + dec((id / 256 % 256) as nat) + ";"@
        + dec((id % 256) as nat) + "m"@ + placeholder_rows(cells.1 as nat, cells.0)
        + "\x1b[1A\x1b[39m"@
}

fn push_part(out: &mut String, first: bool, id: u32, cells: (u16, u16), more: bool, part: &[char])
    ensures
        final(out)@ == old(out)@ + transmission_part(first, id, cells, more, part@),
{
    let mut t = String::from_str("\x1b_G");
    if first {
        let mut keys = String::from_str("a=T,U=1,i=");
        push_dec(&mut keys, id as u64);
        keys.append(",f=100,c=");
        push_dec(&mut keys, cells.0 as u64);
        keys.append(",r=");
        push_dec(&mut keys, cells.1 as u64);
        keys.append(",q=2,m=");
        t.append(keys.as_str());
    } else {
        t.append("m=");
    }
    if more {
        t.append("1;");
    } else {
        t.append("0;");
    }
    push_chars(&mut t, part);
    t.append("\x1b\\");
    out.append(t.as_str());
}

fn push_transmission(out: &mut String, id: u32, cells: (u16, u16), b64: &str)
    ensures
        final(out)@ == old(out)@ + transmission(true, id, cells, b64@),
{
    let cs = chars_of(b64);
    let mut at: usize = 0;
    assert(cs@.skip(0) =~= cs@);
    while cs.len() - at > 4096
        invariant
            at <= cs@.len(),
            out@ + transmission(at == 0, id, cells, cs@.skip(at as int)) == old(out)@
                + transmission(true, id, cells, cs@),
        decreases cs@.len() - at,
    {
        let ghost rest = cs@.skip(at as int);
        let ghost before = out@;
        let part = slice_subrange(cs.as_slice(), at, at + 4096);
        assert(part@ =~= rest.take(4096));
        push_part(out, at == 0, id, cells, true, part);
        assert(rest.skip(4096) =~= cs@.skip(at + 4096));
        assert(out@ + transmission(false, id, cells, cs@.skip(at + 4096)) =~= before + transmission(
            at == 0,
            id,
            cells,
            rest,
        ));
        at = at + 4096;
    }
    let ghost rest = cs@.skip(at as int);
    if at < cs.len() {
        let part = slice_subrange(cs.as_slice(), at, cs.len());
        assert(part@ =~= rest);
        push_part(out, at == 0, id, cells, false, part);
    } else {
        assert(out@ + Seq::<char>::empty() =~= out@);
    }
}

fn push_placeholder_row(out: &mut String, row: u16, cols: u16)
    requires
        row < 297,
        cols <= 297,
    ensures
        final(out)@ == old(out)@ + placeholder_cells(row as int, cols as nat),
{
    let mut c: u16 = 0;
    assert(out@ =~= old(out)@ + placeholder_cells(row as int, 0));
    while c < cols
        invariant
            c <= cols <= 297,
            row < 297,
            out@ == old(out)@ + placeholder_cells(row as int, c as nat),
        decreases cols - c,
    {
        out.push(PLACEHOLDER);
        out.push(DIACRITICS[row as usize]);
        out.push(DIACRITICS[c as usize]);
        c += 1;
        assert(out@ =~= old(out)@ + placeholder_cells(row as int, c as nat));
    }
}

/// The bytes of a kitty image on placeholder cells. `png` is the image file, where it is
/// new to the terminal.
fn kitty_placeholder(id: u32, cells: (u16, u16), png: Option<&[u8]>) -> (r: Vec<u8>)
    requires
        cells.0 <= 297,
        cells.1 <= 297,
        png matches Some(p) ==> p@.len() <= MAX_IMAGE_BYTES,
    ensures
        r@ == encode_utf8(
            placeholder_text(
                id,
                cells,
                match png {
                    Some(p) => Some(standard_b64_text(p@)),
                    None => None,
                },
            ),
        ),
{
    let mut out = String::new();
    let ghost mut sent: Seq<char> = Seq::empty();
    if let Some(p) = png {
        let b64 = standard_encode(p);
        push_transmission(&mut out, id, cells, b64.as_str());
        proof {
            sent = transmission(true, id, cells, b64@);
        }
    }
    assert(out@ =~= sent);
    out.append("\x1b[38;2;");
    push_dec(&mut out, (id / 65536 % 256) as u64);
    out.append(";");
    push_dec(&mut out, (id / 256 % 256) as u64);
    out.append(";");
    push_dec(&mut out, (id % 256) as u64);
    out.append("m");
    let ghost head = out@;
    let mut row: u16 = 0;
    assert(out@ =~= head + placeholder_rows(0, cells.0));
    while row < cells.1
        invariant
            row <= cells.1 <= 297,
            cells.0 <= 297,
            out@ == head + placeholder_rows(row as nat, cells.0),
        decreases cells.1 - row,
    {
        push_placeholder_row(&mut out, row, cells.0);
        out.append("\x1b[");
        push_dec(&mut out, cells.0 as u64);
        out.append("D\x1b[1B");
        row += 1;
        assert(out@ =~= head + placeholder_rows(row as nat, cells.0));
    }
    out.append("\x1b[1A\x1b[39m");
    out.as_str().as_bytes_vec()
}

/// An iTerm2 inline image.
pub open spec fn iterm_text(cells: (u16, u16), b64: Seq<char>) -> Seq<char> {
    "\x1b]1337;File=inline=1;width="@ + dec(cells.0 as nat) + ";height="@ + dec(cells.1 as nat)
        + ":"@ + b64 + "\x07"@
}

fn iterm_encode(png: &[u8], cells: (u16, u16)) -> (r: Vec<u8>)
    requires
        png@.len() <= MAX_IMAGE_BYTES,
    ensures
        r@ == encode_utf8(iterm_text(cells, standard_b64_text(png@))),
{
    let mut out = String::from_str("\x1b]1337;File=inline=1;width=");
    push_dec(&mut out, cells.0 as u64);
    out.append(";height=");
    push_dec(&mut out, cells.1 as u64);
    out.append(":");
    let b64 = standard_encode(png);
    out.append(b64.as_str());
    out.append("\x07");
    out.as_str().as_bytes_vec()
}

/// A transcoded image that is kept.
struct CachedSixel {
    key: Vec<u8>,
    id: u32,
    cells: (u16, u16),
    px: (u32, u32),
    png: Vec<u8>,
}

/// The model of a transcoded image that is kept: by the sixel sequence it was made from.
pub ghost struct CachedView {
    pub key: Seq<u8>,
    pub id: u32,
    pub cells: (u16, u16),
    pub px: (u32, u32),
    pub png: Seq<u8>,
}

impl CachedSixel {
    spec fn model(&self) -> CachedView {
        CachedView {
            key: self.key@,
            id: self.id,
            cells: self.cells,
            px: self.px,
            png: self.png@,
        }
    }
}

spec fn cache_views(s: Seq<CachedSixel>) -> Seq<CachedView> {
    Seq::new(s.len(), |i: int| s[i].model())
}

/// The bytes of PNG in the cache.
pub open spec fn cache_total(c: Seq<CachedView>) -> nat
    decreases c.len(),
{
    if c.len() == 0 {
        0
    } else {
        c[0].png.len() + cache_total(c.drop_first())
    }
}

/// The entry for a sixel sequence.
pub open spec fn cache_find(c: Seq<CachedView>, key: Seq<u8>) -> Option<CachedView>
    decreases c.len(),
{
    if c.len() == 0 {
        None
    } else if c[0].key == key {
        Some(c[0])
    } else {
        cache_find(c.drop_first(), key)
    }
}

/// The cache without its oldest entries, as far as it is over [`CACHE_CAP`]; the newest
/// stays.
pub open spec fn cache_trimmed(c: Seq<CachedView>) -> Seq<CachedView>
    decreases c.len(),
{
    if cache_total(c) > CACHE_CAP && c.len() > 1 {
        cache_trimmed(c.drop_first())
    } else {
        c
    }
}

/// The bounds that every entry of the cache keeps.
pub open spec fn cache_ok(c: Seq<CachedView>) -> bool {
    &&& cache_total(c) <= CACHE_CAP
    &&& forall|i: int|
        0 <= i < c.len() ==> {
            &&& (#[trigger] c[i]).png.len() <= MAX_IMAGE_BYTES
            &&& c[i].cells.0 <= 297
            &&& c[i].cells.1 <= 297
        }
}

proof fn lemma_cache_total_push(c: Seq<CachedView>, e: CachedView)
    ensures
        cache_total(c.push(e)) == cache_total(c) + e.png.len(),
    decreases c.len(),
{
    if c.len() == 0 {
        assert(c.push(e).drop_first() =~= Seq::<CachedView>::empty());
        assert(cache_total(c.push(e).drop_first()) == 0);
    } else {
        assert(c.push(e).drop_first() =~= c.drop_first().push(e));
        lemma_cache_total_push(c.drop_first(), e);
    }
}

/// Trimming leaves a cache within its bounds.
proof fn lemma_cache_trimmed_ok(c: Seq<CachedView>)
    requires
        c.len() > 0,
        forall|i: int|
            0 <= i < c.len() ==> {
                &&& (#[trigger] c[i]).png.len() <= MAX_IMAGE_BYTES
                &&& c[i].cells.0 <= 297
                &&& c[i].cells.1 <= 297
            },
    ensures
        cache_ok(cache_trimmed(c)),
    decreases c.len(),
{
    if cache_total(c) > CACHE_CAP && c.len() > 1 {
        let d = c.drop_first();
        assert forall|i: int| 0 <= i < d.len() implies {
            &&& (#[trigger] d[i]).png.len() <= MAX_IMAGE_BYTES
            &&& d[i].cells.0 <= 297
            &&& d[i].cells.1 <= 297
        } by {
            assert(d[i] == c[i + 1]);
        }
        lemma_cache_trimmed_ok(d);
    } else if c.len() == 1 {
        assert(c.drop_first() =~= Seq::<CachedView>::empty());
        assert(cache_total(c.drop_first()) == 0);
        assert(c[0].png.len() <= MAX_IMAGE_BYTES);
    }
}

/// Transcoded images, oldest first.
struct SixelCache {
    entries: Vec<CachedSixel>,
    total: usize,
}

impl SixelCache {
    spec fn model(&self) -> Seq<CachedView> {
        cache_views(self.entries@)
    }

    spec fn wf(&self) -> bool {
        &&& self.total == cache_total(self.model())
        &&& cache_ok(self.model())
    }

    fn get(&self, key: &[u8]) -> (r: Option<&CachedSixel>)
        ensures
            r is Some <==> cache_find(self.model(), key@) is Some,
            r matches Some(e) ==> cache_find(self.model(), key@) == Some(e.model())
                && exists|i: int| 0 <= i < self.model().len() && self.model()[i] == e.model(),
    {
        let mut i: usize = 0;
        assert(self.model().skip(0) =~= self.model());
        while i < self.entries.len()
            invariant
                i <= self.entries@.len(),
                cache_find(self.model(), key@) == cache_find(self.model().skip(i as int), key@),
            decreases self.entries@.len() - i,
        {
            let ghost rest = self.model().skip(i as int);
            assert(rest[0] == self.entries@[i as int].model());
            assert(rest.drop_first() =~= self.model().skip(i + 1));
            if same_bytes(self.entries[i].key.as_slice(), key) {
                assert(self.model()[i as int] == self.entries@[i as int].model());
                return Some(&self.entries[i]);
            }
            i += 1;
        }
        None
    }

    fn insert(&mut self, entry: CachedSixel)
        requires
            old(self).wf(),
            entry.png@.len() <= MAX_IMAGE_BYTES,
            entry.cells.0 <= 297,
            entry.cells.1 <= 297,
        ensures
            final(self).wf(),
            final(self).model() == (if cache_find(old(self).model(), entry.key@) is Some {
                old(self).model()
            } else {
                cache_trimmed(old(self).model().push(entry.model()))
            }),
    {
        if self.get(entry.key.as_slice()).is_some() {
            return;
        }
        let ghost grown = self.model().push(entry.model());
        proof {
            lemma_cache_total_push(self.model(), entry.model());
            assert forall|i: int| 0 <= i < grown.len() implies {
                &&& (#[trigger] grown[i]).png.len() <= MAX_IMAGE_BYTES
                &&& grown[i].cells.0 <= 297
                &&& grown[i].cells.1 <= 297
            } by {
                if i < self.model().len() {
                    assert(grown[i] == self.model()[i]);
                }
            }
            lemma_cache_trimmed_ok(grown);
        }
        self.total = self.total + entry.png.len();
        self.entries.push(entry);
        assert(cache_views(self.entries@) =~= grown);
        while self.total > CACHE_CAP && self.entries.len() > 1
            invariant
                self.total == cache_total(self.model()),
                cache_trimmed(self.model()) == cache_trimmed(grown),
                cache_ok(cache_trimmed(grown)),
            decreases self.entries@.len(),
        {
            let ghost was = self.model();
            let old = self.entries.remove(0);
            assert(self.model() =~= was.drop_first());
            assert(was[0] == old.model());
            self.total = self.total - old.png.len();
        }
    }
}

/// What stands between the marker and the terminator of a kitty sequence.
pub open spec fn kitty_body(seq: Seq<u8>) -> Seq<u8> {
    seq.subrange(3, seq.len() - 2)
}

/// The keys of a kitty sequence: what stands before the first semicolon.
pub open spec fn kitty_control(seq: Seq<u8>) -> Seq<Pair> {
    let body = kitty_body(seq);
    control(body.take(index_of(body, 0x3bu8)), ',')
}

/// The payload of a kitty sequence: what follows the first semicolon.
pub open spec fn kitty_payload(seq: Seq<u8>) -> Seq<char> {
    let body = kitty_body(seq);
    let p = index_of(body, 0x3bu8);
    if p < body.len() {
        text_or_empty(body.skip(p + 1))
    } else {
        Seq::empty()
    }
}

fn split_kitty(seq: &[u8]) -> (r: (Vec<(String, String)>, String))
    requires
        seq@.len() >= 5,
    ensures
        pair_views(r.0@) == kitty_control(seq@),
        r.1@ == kitty_payload(seq@),
{
    let body = slice_subrange(seq, 3, seq.len() - 2);
    let p = find_byte(body, 0x3b);
    let head = slice_subrange(body, 0, p);
    assert(head@ =~= body@.take(p as int));
    let ctrl = parse_kv(head, ',');
    let payload = if p < body.len() {
        let tail = slice_subrange(body, p + 1, body.len());
        assert(tail@ =~= body@.skip(p + 1));
        utf8_or_empty(tail)
    } else {
        String::new()
    };
    (ctrl, payload)
}

// ---- the stream ----

/// Which protocol a sequence belongs to.
#[derive(Clone, Copy, PartialEq, Eq, Structural)]
pub enum Marker {
    Iterm,
    Kitty,
    Sixel,
}

/// The bytes that start a sequence.
pub open spec fn marker_bytes(m: Marker) -> Seq<u8> {
    match m {
        Marker::Iterm => ITERM@,
        Marker::Kitty => KITTY@,
        Marker::Sixel => DCS@,
    }
}

/// How the search for the end of a sequence came out.
pub enum StringEnd {
    /// Ended; one past the terminator.
    End(usize),
    /// Cancelled; where to go on: at the cancelling ESC, or one past CAN or SUB.
    Abort(usize),
    /// Not ended; where to go on when more bytes are there.
    More(usize),
}

/// The model of [`StringEnd`].
pub ghost enum Ending {
    End(int),
    Abort(int),
    More(int),
}

impl View for StringEnd {
    type V = Ending;

    open spec fn view(&self) -> Ending {
        match self {
            StringEnd::End(i) => Ending::End(*i as int),
            StringEnd::Abort(i) => Ending::Abort(*i as int),
            StringEnd::More(i) => Ending::More(*i as int),
        }
    }
}

/// Whether a byte ends or cancels a sequence: BEL for iTerm2, the eight-bit ST for sixel,
/// CAN, SUB and ESC for all.
pub open spec fn stops(m: Marker, b: u8) -> bool {
    ||| b == 0x07 && m == Marker::Iterm
    ||| b == 0x9c && m == Marker::Sixel
    ||| b == 0x18
    ||| b == 0x1a
    ||| b == 0x1b
}

/// The place of the first byte from `i` on that ends or cancels a sequence.
pub open spec fn first_stop(s: Seq<u8>, m: Marker, i: int) -> int
    decreases s.len() - i,
{
    if 0 <= i < s.len() && !stops(m, s[i]) {
        first_stop(s, m, i + 1)
    } else {
        i
    }
}

/// How a sequence comes out whose first stop is at `k`.
pub open spec fn ending_at(s: Seq<u8>, k: int) -> Ending {
    if k >= s.len() {
        Ending::More(s.len() as int)
    } else if s[k] == 0x18 || s[k] == 0x1a {
        Ending::Abort(k + 1)
    } else if s[k] != 0x1b {
        Ending::End(k + 1)
    } else if k + 1 >= s.len() {
        Ending::More(k)
    } else if s[k + 1] == 0x5c {
        Ending::End(k + 2)
    } else {
        Ending::Abort(k)
    }
}

/// How the search for the end of a sequence comes out, from `from` on.
pub open spec fn string_end(s: Seq<u8>, m: Marker, from: int) -> Ending {
    ending_at(s, first_stop(s, m, from))
}

/// What `first_stop` says of the bytes before and at the place it names.
pub proof fn lemma_first_stop(s: Seq<u8>, m: Marker, i: int)
    requires
        0 <= i <= s.len(),
    ensures
        i <= first_stop(s, m, i) <= s.len(),
        forall|j: int| i <= j < first_stop(s, m, i) ==> !stops(m, #[trigger] s[j]),
        first_stop(s, m, i) < s.len() ==> stops(m, s[first_stop(s, m, i)]),
    decreases s.len() - i,
{
    if i < s.len() && !stops(m, s[i]) {
        lemma_first_stop(s, m, i + 1);
    }
}

pub(crate) proof fn lemma_first_stop_skips(s: Seq<u8>, m: Marker, i: int, j: int)
    requires
        0 <= i <= j <= s.len(),
        forall|x: int| i <= x < j ==> !stops(m, #[trigger] s[x]),
    ensures
        first_stop(s, m, i) == first_stop(s, m, j),
    decreases j - i,
{
    if i < j {
        assert(!stops(m, s[i]));
        lemma_first_stop_skips(s, m, i + 1, j);
    }
}

/// Search `s` from `from` on for the end of a sequence.
pub fn scan_string(s: &[u8], m: Marker, from: usize) -> (r: StringEnd)
    requires
        from <= s@.len(),
    ensures
        r@ == string_end(s@, m, from as int),
{
    let mut i: usize = from;
    while i < s.len()
        invariant
            from <= i <= s@.len(),
            first_stop(s@, m, from as int) == first_stop(s@, m, i as int),
        decreases s@.len() - i,
    {
        let b = s[i];
        if b == 0x07 && m == Marker::Iterm {
            return StringEnd::End(i + 1);
        }
        if b == 0x9c && m == Marker::Sixel {
            return StringEnd::End(i + 1);
        }
        if b == 0x18 || b == 0x1a {
            return StringEnd::Abort(i + 1);
        }
        if b == 0x1b {
            if i + 1 == s.len() {
                return StringEnd::More(i);
            }
            if s[i + 1] == 0x5c {
                return StringEnd::End(i + 2);
            }
            return StringEnd::Abort(i);
        }
        i += 1;
    }
    StringEnd::More(s.len())
}

/// The state of an [`Interceptor`].
#[verifier::ext_equal]
pub ghost struct InterceptorState {
    /// Bytes that are held.
    pub seq: Seq<u8>,
    /// The bytes held are a sequence of this protocol, not just the start of one.
    pub inflight: Option<Marker>,
    /// How far the held bytes have been searched for the end.
    pub scan_from: int,
    /// The sequence outgrew [`MAX_SEQ_BYTES`].
    pub overflow: bool,
    pub kitty: Option<KittyState>,
    pub iterm: Option<ItermState>,
    pub do_kitty: bool,
    pub do_iterm: bool,
    pub do_sixel: bool,
    /// The protocol that sixel images are turned into.
    pub transcode: Option<GfxProto>,
    /// The size of a cell in pixels.
    pub cell: (u16, u16),
    /// The last number given to a transcoded image.
    pub next_id: u32,
    pub cache: Seq<CachedView>,
}

/// The state before the first byte.
pub open spec fn initial(
    do_kitty: bool,
    do_iterm: bool,
    do_sixel: bool,
    transcode: Option<GfxProto>,
    cell: (u16, u16),
) -> InterceptorState {
    InterceptorState {
        seq: Seq::empty(),
        inflight: None,
        scan_from: 0,
        overflow: false,
        kitty: None,
        iterm: None,
        do_kitty,
        do_iterm,
        do_sixel,
        transcode,
        cell,
        next_id: 0,
        cache: Seq::empty(),
    }
}

/// What may begin at an ESC.
pub ghost enum Opening {
    /// Nothing of interest.
    No,
    /// Perhaps a sequence; more bytes are needed.
    Carry,
    /// A sequence.
    Start(Marker),
}

/// Whether `s` is a nonempty proper prefix of a marker.
pub open spec fn proper_prefix(s: Seq<u8>, marker: Seq<u8>) -> bool {
    0 < s.len() < marker.len() && begins(marker, s)
}

impl InterceptorState {
    /// What begins at the start of `rest`.
    pub open spec fn opening(self, rest: Seq<u8>) -> Opening {
        if self.do_iterm && begins(rest, ITERM@) {
            Opening::Start(Marker::Iterm)
        } else if self.do_kitty && begins(rest, KITTY@) {
            Opening::Start(Marker::Kitty)
        } else if self.do_sixel && begins(rest, DCS@) {
            match dcs_is_sixel(rest) {
                Some(true) => Opening::Start(Marker::Sixel),
                Some(false) => Opening::No,
                None => Opening::Carry,
            }
        } else if (self.do_iterm && proper_prefix(rest, ITERM@)) || (self.do_kitty && proper_prefix(
            rest,
            KITTY@,
        )) || (self.do_sixel && proper_prefix(rest, DCS@)) {
            Opening::Carry
        } else {
            Opening::No
        }
    }

    /// The place of the first ESC from `i` on at which something of interest begins.
    pub open spec fn first_opening(self, data: Seq<u8>, i: int) -> int
        decreases data.len() - i,
    {
        if 0 <= i < data.len() && (data[i] != 0x1b || self.opening(data.skip(i)) == Opening::No) {
            self.first_opening(data, i + 1)
        } else {
            i
        }
    }

    /// A broken sequence breaks the transfer that it is part of.
    pub open spec fn cancelled(self, m: Marker) -> InterceptorState {
        match m {
            Marker::Kitty => InterceptorState { kitty: None, ..self },
            Marker::Iterm => InterceptorState { iterm: None, ..self },
            Marker::Sixel => self,
        }
    }

    /// A sequence that outgrew [`MAX_SEQ_BYTES`] is given up: what was searched of it is
    /// discarded.
    pub open spec fn capped(self, m: Marker) -> InterceptorState {
        if self.overflow || self.seq.len() > MAX_SEQ_BYTES {
            InterceptorState {
                seq: self.seq.skip(self.scan_from),
                scan_from: 0,
                overflow: true,
                ..self.cancelled(m)
            }
        } else {
            self
        }
    }

    /// Nothing held.
    pub open spec fn idle(self) -> InterceptorState {
        InterceptorState {
            seq: Seq::empty(),
            inflight: None,
            scan_from: 0,
            overflow: false,
            ..self
        }
    }

    /// A complete kitty sequence.
    pub open spec fn kitty_parsed(self, seq: Seq<u8>) -> (InterceptorState, SegmentView) {
        let ctrl = kitty_control(seq);
        let opened = match self.kitty {
            Some(a) => a,
            None => kitty_opened(ctrl),
        };
        let acc = opened.absorbed(kitty_payload(seq));
        if kv_get(ctrl, "m"@) == Some("1"@) {
            (InterceptorState { kitty: Some(acc), ..self }, SegmentView::Drop)
        } else {
            (InterceptorState { kitty: None, ..self }, kitty_flushed(acc, ctrl))
        }
    }

    /// A complete iTerm2 sequence.
    pub open spec fn iterm_parsed(self, seq: Seq<u8>) -> (InterceptorState, SegmentView) {
        let body = unterminated(seq.skip(7));
        if begins(body, FILE@) {
            (
                self,
                match iterm_file(body.skip(5)) {
                    Some(i) => SegmentView::Image(i),
                    None => SegmentView::Drop,
                },
            )
        } else if begins(body, MULTIPART_FILE@) {
            let kv = control(body.skip(14), ';');
            if kv_get(kv, "inline"@) == Some("1"@) {
                let acc = ItermState {
                    payload: Seq::empty(),
                    cells: size_hint(kv_get(kv, "width"@), kv_get(kv, "height"@)),
                    over: false,
                };
                (InterceptorState { iterm: Some(acc), ..self }, SegmentView::Drop)
            } else {
                (self, SegmentView::Drop)
            }
        } else if begins(body, FILE_PART@) {
            match self.iterm {
                Some(acc) => (
                    InterceptorState {
                        iterm: Some(acc.absorbed(trim(text_or_empty(body.skip(9))))),
                        ..self
                    },
                    SegmentView::Drop,
                ),
                None => (self, SegmentView::Drop),
            }
        } else if begins(body, FILE_END@) {
            (
                InterceptorState { iterm: None, ..self },
                match self.iterm {
                    Some(acc) => if acc.over {
                        SegmentView::Drop
                    } else {
                        match image_of_b64(acc.payload, acc.cells) {
                            Some(i) => SegmentView::Image(i),
                            None => SegmentView::Drop,
                        }
                    },
                    None => SegmentView::Drop,
                },
            )
        } else {
            (self, SegmentView::Drop)
        }
    }

    /// The segment for a transcoded image.
    pub open spec fn transcoded_segment(
        proto: GfxProto,
        e: CachedView,
        fresh: bool,
    ) -> SegmentView {
        SegmentView::Transcoded {
            tee: encode_utf8(
                match proto {
                    GfxProto::Kitty => placeholder_text(
                        e.id,
                        e.cells,
                        if fresh {
                            Some(standard_b64_text(e.png))
                        } else {
                            None
                        },
                    ),
                    GfxProto::Iterm => iterm_text(e.cells, standard_b64_text(e.png)),
                },
            ),
            image: ImageView { mime: "image/png"@, bytes: e.png, cells: None, px: Some(e.px) },
        }
    }

    /// The number after the last one: one where that would be zero.
    pub open spec fn number_after(self) -> u32 {
        if self.next_id == u32::MAX {
            1
        } else {
            (self.next_id + 1) as u32
        }
    }

    /// A complete sixel sequence, for a terminal that does not show sixel. One that was
    /// seen before keeps its number and is not decoded again.
    pub open spec fn sixel_transcoded(self, seq: Seq<u8>, proto: GfxProto) -> (
        InterceptorState,
        SegmentView,
    ) {
        match cache_find(self.cache, seq) {
            Some(e) => (self, Self::transcoded_segment(proto, e, false)),
            None => match finished(PayloadView::Sixel(seq), false) {
                Some((png, px)) => if png.len() > MAX_IMAGE_BYTES {
                    (self, SegmentView::Drop)
                } else {
                    let e = CachedView {
                        key: seq,
                        id: (self.number_after() % 0x100_0000) as u32,
                        cells: (cell_count(px.0, self.cell.0), cell_count(px.1, self.cell.1)),
                        px,
                        png,
                    };
                    (
                        InterceptorState {
                            next_id: self.number_after(),
                            cache: cache_trimmed(self.cache.push(e)),
                            ..self
                        },
                        Self::transcoded_segment(proto, e, true),
                    )
                },
                None => (self, SegmentView::Drop),
            },
        }
    }

    /// A complete sixel sequence.
    pub open spec fn sixel_parsed(self, seq: Seq<u8>) -> (InterceptorState, SegmentView) {
        match self.transcode {
            Some(proto) => self.sixel_transcoded(seq, proto),
            None => (self, sixel_segment(seq)),
        }
    }

    /// A complete sequence, from its marker to its terminator.
    #[verifier::opaque]
    pub open spec fn parsed(self, m: Marker, seq: Seq<u8>) -> (InterceptorState, SegmentView) {
        match m {
            Marker::Iterm => self.iterm_parsed(seq),
            Marker::Kitty => self.kitty_parsed(seq),
            Marker::Sixel => self.sixel_parsed(seq),
        }
    }

    /// The bytes `data`, with nothing held before them: the state after them, and the steps.
    #[verifier::opaque]
    pub open spec fn scanned(self, data: Seq<u8>) -> (InterceptorState, Seq<StepView>)
        decreases data.len(),
    {
        let i = self.first_opening(data, 0);
        if !(0 <= i < data.len()) {
            (self, pass_steps(data))
        } else {
            let rest = data.skip(i);
            let pass = pass_steps(data.take(i));
            match self.opening(rest) {
                Opening::Start(m) => match string_end(rest, m, 1) {
                    Ending::End(e) => {
                        let (st, seg) = self.parsed(m, rest.take(e));
                        proof {
                            lemma_first_stop(rest, m, 1);
                        }
                        let (end, more) = st.scanned(rest.skip(e));
                        (end, pass + seq![tee_step(rest.take(e), seg)] + more)
                    },
                    Ending::Abort(r) => {
                        proof {
                            lemma_first_stop(rest, m, 1);
                        }
                        let (end, more) = self.cancelled(m).scanned(rest.skip(r));
                        (end, pass + seq![StepView::TerminalOnly(rest.take(r))] + more)
                    },
                    Ending::More(k) => (
                        InterceptorState {
                            seq: rest,
                            inflight: Some(m),
                            scan_from: k,
                            ..self
                        }.capped(m),
                        pass,
                    ),
                },
                _ => (InterceptorState { seq: rest, ..self }, pass),
            }
        }
    }

    /// One read: the state after it, and the steps.
    pub open spec fn fed(self, chunk: Seq<u8>) -> (InterceptorState, Seq<StepView>) {
        let seq = self.seq + chunk;
        match self.inflight {
            Some(m) => match string_end(seq, m, self.scan_from) {
                Ending::More(k) => (
                    InterceptorState { seq, scan_from: k, ..self }.capped(m),
                    Seq::empty(),
                ),
                Ending::End(e) => {
                    let (st, seg) = if self.overflow {
                        (self.idle().cancelled(m), SegmentView::Drop)
                    } else {
                        self.idle().parsed(m, seq.take(e))
                    };
                    let (end, more) = st.scanned(seq.skip(e));
                    (end, seq![tee_step(seq.take(e), seg)] + more)
                },
                Ending::Abort(r) => {
                    let (end, more) = self.idle().cancelled(m).scanned(seq.skip(r));
                    (end, seq![StepView::TerminalOnly(seq.take(r))] + more)
                },
            },
            None => self.idle().scanned(seq),
        }
    }

    /// What holds of every state: a sequence in flight starts with its marker, and no byte
    /// that was searched ends it; the cache keeps its bounds.
    pub open spec fn ok(self) -> bool {
        &&& cache_ok(self.cache)
        &&& match self.inflight {
            Some(m) => if self.overflow {
                self.scan_from == 0
            } else {
                &&& begins(self.seq, marker_bytes(m))
                &&& 1 <= self.scan_from <= self.seq.len()
                &&& forall|j: int| 1 <= j < self.scan_from ==> !stops(m, #[trigger] self.seq[j])
            },
            None => self.scan_from == 0 && !self.overflow,
        }
    }
}

/// Takes image sequences out of a byte stream.
pub struct Interceptor {
    seq: Vec<u8>,
    inflight: Option<Marker>,
    scan_from: usize,
    overflow: bool,
    kitty: Option<KittyAccum>,
    iterm: Option<ItermAccum>,
    do_kitty: bool,
    do_iterm: bool,
    do_sixel: bool,
    transcode: Option<GfxProto>,
    cell: (u16, u16),
    next_id: u32,
    cache: SixelCache,
}

impl View for Interceptor {
    type V = InterceptorState;

    closed spec fn view(&self) -> InterceptorState {
        InterceptorState {
            seq: self.seq@,
            inflight: self.inflight,
            scan_from: self.scan_from as int,
            overflow: self.overflow,
            kitty: match self.kitty {
                Some(a) => Some(a.model()),
                None => None,
            },
            iterm: match self.iterm {
                Some(a) => Some(a.model()),
                None => None,
            },
            do_kitty: self.do_kitty,
            do_iterm: self.do_iterm,
            do_sixel: self.do_sixel,
            transcode: self.transcode,
            cell: self.cell,
            next_id: self.next_id,
            cache: self.cache.model(),
        }
    }
}

/// The marker at the start of a sequence puts its end past it.
proof fn lemma_end_past_marker(s: Seq<u8>, m: Marker, from: int)
    requires
        begins(s, marker_bytes(m)),
        1 <= from <= s.len(),
    ensures
        first_stop(s, m, from) >= marker_bytes(m).len(),
        string_end(s, m, from) matches Ending::End(e) ==> e > marker_bytes(m).len(),
        (string_end(s, m, from) matches Ending::End(e) ==> m == Marker::Kitty ==> e
            >= marker_bytes(m).len() + 2),
{
    lemma_first_stop(s, m, from);
    let k = first_stop(s, m, from);
    let t = marker_bytes(m);
    if k < t.len() {
        assert(s.take(t.len() as int)[k] == t[k]);
        assert(stops(m, s[k]));
        assert(k >= 1);
    }
}

impl Interceptor {
    /// What holds of every interceptor.
    pub closed spec fn wf(&self) -> bool {
        &&& self.cache.wf()
        &&& self@.ok()
    }

    /// Take out the sequences of all protocols.
    pub fn new() -> (r: Self)
        ensures
            r.wf(),
            r@ == initial(true, true, true, None, (8, 16)),
    {
        Self::with(true, true, true, None, (8, 16))
    }

    /// Take out the sequences of the given protocols. With `transcode`, sixel images are
    /// turned into that protocol for the terminal, in cells of `cell` pixels.
    pub fn with(
        do_kitty: bool,
        do_iterm: bool,
        do_sixel: bool,
        transcode: Option<GfxProto>,
        cell: (u16, u16),
    ) -> (r: Self)
        ensures
            r.wf(),
            r@ == initial(do_kitty, do_iterm, do_sixel, transcode, cell),
    {
        let r = Interceptor {
            seq: Vec::new(),
            inflight: None,
            scan_from: 0,
            overflow: false,
            kitty: None,
            iterm: None,
            do_kitty,
            do_iterm,
            do_sixel,
            transcode,
            cell,
            next_id: 0,
            cache: SixelCache { entries: Vec::new(), total: 0 },
        };
        assert(r.cache.model() =~= Seq::<CachedView>::empty());
        r
    }

    /// How many bytes are held.
    pub fn carried_len(&self) -> (r: usize)
        ensures
            r == self@.seq.len(),
    {
        self.seq.len()
    }

    fn split_prefix(&self, s: &[u8]) -> (r: bool)
        ensures
            r == ((self.do_iterm && proper_prefix(s@, ITERM@)) || (self.do_kitty && proper_prefix(
                s@,
                KITTY@,
            )) || (self.do_sixel && proper_prefix(s@, DCS@))),
    {
        s.len() > 0 && ((self.do_iterm && s.len() < 7 && starts_with(&ITERM, s)) || (self.do_kitty
            && s.len() < 3 && starts_with(&KITTY, s)) || (self.do_sixel && s.len() < 2
            && starts_with(&DCS, s)))
    }

    fn cancel_accum(&mut self, m: Marker)
        requires
            old(self).cache.wf(),
        ensures
            final(self)@ == old(self)@.cancelled(m),
            final(self).cache.wf(),
    {
        match m {
            Marker::Kitty => self.kitty = None,
            Marker::Iterm => self.iterm = None,
            Marker::Sixel => {},
        }
        assert(self@ =~= old(self)@.cancelled(m));
    }

    fn enforce_cap(&mut self, m: Marker)
        requires
            old(self).cache.wf(),
            old(self)@.scan_from <= old(self)@.seq.len(),
        ensures
            final(self)@ == old(self)@.capped(m),
            final(self).cache.wf(),
    {
        if self.overflow || self.seq.len() > MAX_SEQ_BYTES {
            let tail = copy_bytes(
                slice_subrange(self.seq.as_slice(), self.scan_from, self.seq.len()),
            );
            assert(tail@ =~= self.seq@.skip(self.scan_from as int));
            self.seq = tail;
            self.scan_from = 0;
            self.overflow = true;
            self.cancel_accum(m);
        }
        assert(self@ =~= old(self)@.capped(m));
    }

    fn finish_inflight(&mut self) -> (r: Vec<u8>)
        requires
            old(self).cache.wf(),
        ensures
            r@ == old(self)@.seq,
            final(self)@ == old(self)@.idle(),
            final(self).cache.wf(),
    {
        let mut buf: Vec<u8> = Vec::new();
        core::mem::swap(&mut buf, &mut self.seq);
        self.inflight = None;
        self.scan_from = 0;
        self.overflow = false;
        assert(self@ =~= old(self)@.idle());
        buf
    }

    fn parse_sequence(&mut self, m: Marker, seq: &[u8]) -> (r: Segment)
        requires
            old(self).cache.wf(),
            m == Marker::Iterm ==> seq@.len() >= 7,
            m == Marker::Kitty ==> seq@.len() >= 5,
        ensures
            (final(self)@, r.model()) == old(self)@.parsed(m, seq@),
            final(self).cache.wf(),
    {
        proof {
            reveal(InterceptorState::parsed);
        }
        match m {
            Marker::Iterm => self.parse_iterm(seq),
            Marker::Kitty => self.parse_kitty(seq),
            Marker::Sixel => self.parse_sixel(seq),
        }
    }

    fn parse_sixel(&mut self, seq: &[u8]) -> (r: Segment)
        requires
            old(self).cache.wf(),
        ensures
            (final(self)@, r.model()) == old(self)@.sixel_parsed(seq@),
            final(self).cache.wf(),
    {
        match self.transcode {
            Some(proto) => self.transcode_sixel(seq, proto),
            None => sixel_image(seq),
        }
    }

    fn transcode_sixel(&mut self, seq: &[u8], proto: GfxProto) -> (r: Segment)
        requires
            old(self).cache.wf(),
        ensures
            (final(self)@, r.model()) == old(self)@.sixel_transcoded(seq@, proto),
            final(self).cache.wf(),
    {
        let (id, cells, px, png, fresh) = match self.cache.get(seq) {
            Some(e) => (e.id, e.cells, e.px, copy_bytes(e.png.as_slice()), false),
            None => {
                let (png, px) = match finish_sixel(seq, false) {
                    Some(x) => x,
                    None => return Segment::Drop,
                };
                if png.len() > MAX_IMAGE_BYTES {
                    return Segment::Drop;
                }
                let cells = cells_for(px.0, px.1, self.cell);
                self.next_id = if self.next_id == u32::MAX {
                    1
                } else {
                    self.next_id + 1
                };
                let id: u32 = self.next_id % 0x100_0000;
                let e = CachedSixel {
                    key: copy_bytes(seq),
                    id,
                    cells,
                    px,
                    png: copy_bytes(png.as_slice()),
                };
                self.cache.insert(e);
                (id, cells, px, png, true)
            },
        };
        let tee = match proto {
            GfxProto::Kitty => {
                let sent = if fresh {
                    Some(png.as_slice())
                } else {
                    None
                };
                kitty_placeholder(id, cells, sent)
            },
            GfxProto::Iterm => iterm_encode(png.as_slice(), cells),
        };
        let image = Image {
            mime: String::from_str("image/png"),
            bytes: png,
            cells: None,
            px: Some(px),
        };
        let r = Segment::Transcoded { tee, image };
        proof {
            let want = old(self)@.sixel_transcoded(seq@, proto);
            assert(self@ =~= want.0);
        }
        r
    }

    fn parse_iterm(&mut self, seq: &[u8]) -> (r: Segment)
        requires
            old(self).cache.wf(),
            seq@.len() >= 7,
        ensures
            (final(self)@, r.model()) == old(self)@.iterm_parsed(seq@),
            final(self).cache.wf(),
    {
        let tail = slice_subrange(seq, 7, seq.len());
        assert(tail@ =~= seq@.skip(7));
        let body = strip_terminator(tail);
        if starts_with(body, &FILE) {
            let args = slice_subrange(body, 5, body.len());
            assert(args@ =~= body@.skip(5));
            assert(self@ =~= old(self)@);
            return match iterm_single(args) {
                Some(i) => Segment::Image(i),
                None => Segment::Drop,
            };
        }
        if starts_with(body, &MULTIPART_FILE) {
            let args = slice_subrange(body, 14, body.len());
            assert(args@ =~= body@.skip(14));
            let kv = parse_kv(args, ';');
            if is_text(kv_find(&kv, "inline"), "1") {
                self.iterm = Some(
                    ItermAccum {
                        payload: String::new(),
                        cells: cells_from(kv_find(&kv, "width"), kv_find(&kv, "height")),
                        over: false,
                    },
                );
            }
            assert(self@ =~= old(self)@.iterm_parsed(seq@).0);
            return Segment::Drop;
        }
        if starts_with(body, &FILE_PART) {
            let part = slice_subrange(body, 9, body.len());
            assert(part@ =~= body@.skip(9));
            if let Some(acc) = self.iterm.take() {
                let mut acc = acc;
                let text = utf8_or_empty(part);
                let t = trim_text(text.as_str());
                acc.absorb(t.as_str());
                self.iterm = Some(acc);
            }
            assert(self@ =~= old(self)@.iterm_parsed(seq@).0);
            return Segment::Drop;
        }
        if starts_with(body, &FILE_END) {
            let acc = self.iterm.take();
            assert(self@ =~= old(self)@.iterm_parsed(seq@).0);
            return match acc {
                Some(acc) => if acc.over {
                    Segment::Drop
                } else {
                    match image_from_b64(acc.payload.as_str(), acc.cells) {
                        Some(i) => Segment::Image(i),
                        None => Segment::Drop,
                    }
                },
                None => Segment::Drop,
            };
        }
        assert(self@ =~= old(self)@);
        Segment::Drop
    }

    fn parse_kitty(&mut self, seq: &[u8]) -> (r: Segment)
        requires
            old(self).cache.wf(),
            seq@.len() >= 5,
        ensures
            (final(self)@, r.model()) == old(self)@.kitty_parsed(seq@),
            final(self).cache.wf(),
    {
        let (ctrl, payload) = split_kitty(seq);
        let mut acc = match self.kitty.take() {
            Some(a) => a,
            None => KittyAccum::open(&ctrl),
        };
        acc.absorb(payload.as_str());
        if is_text(kv_find(&ctrl, "m"), "1") {
            self.kitty = Some(acc);
            assert(self@ =~= old(self)@.kitty_parsed(seq@).0);
            return Segment::Drop;
        }
        assert(self@ =~= old(self)@.kitty_parsed(seq@).0);
        if acc.medium == KittyMedium::File || acc.medium == KittyMedium::Shm {
            return Segment::Reject(kitty_reject(&ctrl));
        }
        if !acc.display || acc.over || acc.medium != KittyMedium::Direct {
            return Segment::Drop;
        }
        kitty_direct_image(acc)
    }

    /// Take the sequences out of `data`, with nothing held before it.
    #[verifier::rlimit(40)]
    fn scan(&mut self, data: &[u8], out: &mut Vec<Step>)
        requires
            old(self).cache.wf(),
            old(self)@.inflight is None,
            old(self)@.ok(),
            old(self)@.seq.len() == 0,
        ensures
            final(self).cache.wf(),
            final(self)@ == old(self)@.scanned(data@).0,
            step_views(final(out)@) == step_views(old(out)@) + old(self)@.scanned(data@).1,
            final(self)@.ok(),
    {
        let ghost start = self@;
        let ghost steps = step_views(out@);
        let mut from: usize = 0;
        let mut i: usize = 0;
        assert(data@.skip(0) =~= data@);
        assert(steps + start.scanned(data@).1 =~= step_views(out@) + start.scanned(data@).1);
        while i < data.len()
            invariant
                start == old(self)@,
                steps == step_views(old(out)@),
                from <= i <= data@.len(),
                self.cache.wf(),
                self@.inflight is None,
                self@.seq.len() == 0,
                self@.ok(),
                start.scanned(data@).0 == self@.scanned(data@.skip(from as int)).0,
                steps + start.scanned(data@).1 == step_views(out@) + self@.scanned(
                    data@.skip(from as int),
                ).1,
                self@.first_opening(data@.skip(from as int), 0) == self@.first_opening(
                    data@.skip(from as int),
                    i - from,
                ),
            decreases data@.len() - i,
        {
            let ghost tail = data@.skip(from as int);
            let ghost k = i - from;
            assert(tail[k] == data@[i as int]);
            assert(tail.skip(k) =~= data@.skip(i as int));
            if data[i] != 0x1b {
                i += 1;
                continue;
            }
            let rest = slice_subrange(data, i, data.len());
            assert(rest@ =~= tail.skip(k));
            let pass = slice_subrange(data, from, i);
            assert(pass@ =~= tail.take(k));
            let marker = if self.do_iterm && starts_with(rest, &ITERM) {
                Marker::Iterm
            } else if self.do_kitty && starts_with(rest, &KITTY) {
                Marker::Kitty
            } else if self.do_sixel && starts_with(rest, &DCS) {
                match sixel_dcs(rest) {
                    Some(true) => Marker::Sixel,
                    Some(false) => {
                        i += 1;
                        continue;
                    },
                    None => {
                        proof {
                            lemma_scan_at(self@, tail, k);
                        }
                        push_pass(out, pass);
                        let ghost was = self@;
                        self.seq = copy_bytes(rest);
                        assert(self@ =~= (InterceptorState { seq: rest@, ..was }));
                        return;
                    },
                }
            } else if self.split_prefix(rest) {
                proof {
                    lemma_scan_at(self@, tail, k);
                }
                push_pass(out, pass);
                let ghost was = self@;
                self.seq = copy_bytes(rest);
                assert(self@ =~= (InterceptorState { seq: rest@, ..was }));
                return;
            } else {
                assert(self@.opening(rest@) == Opening::No);
                i += 1;
                continue;
            };
            assert(self@.opening(rest@) == Opening::Start(marker));
            let ghost was = self@;
            let ghost before = step_views(out@);
            proof {
                lemma_scan_at(was, tail, k);
                lemma_first_stop(rest@, marker, 1);
                lemma_end_past_marker(rest@, marker, 1);
            }
            match scan_string(rest, marker, 1) {
                StringEnd::End(end) => {
                    let whole = slice_subrange(rest, 0, end);
                    assert(whole@ =~= rest@.take(end as int));
                    push_pass(out, pass);
                    let seg = self.parse_sequence(marker, whole);
                    proof {
                        lemma_parsed_idle(was, marker, whole@);
                    }
                    let ghost step = tee_step(whole@, seg.model());
                    push_tee(out, whole, seg);
                    i = i + end;
                    from = i;
                    assert(data@.skip(from as int) =~= rest@.skip(end as int));
                    proof {
                        let more = self@.scanned(data@.skip(from as int)).1;
                        assert(step_views(out@) + more =~= before + (pass_steps(pass@) + seq![step]
                            + more));
                    }
                },
                StringEnd::Abort(resume) => {
                    let whole = slice_subrange(rest, 0, resume);
                    assert(whole@ =~= rest@.take(resume as int));
                    push_pass(out, pass);
                    push_tee(out, whole, Segment::Drop);
                    self.cancel_accum(marker);
                    i = i + resume;
                    from = i;
                    assert(data@.skip(from as int) =~= rest@.skip(resume as int));
                    proof {
                        let more = self@.scanned(data@.skip(from as int)).1;
                        assert(step_views(out@) + more =~= before + (pass_steps(pass@) + seq![
                            StepView::TerminalOnly(whole@),
                        ] + more));
                    }
                },
                StringEnd::More(m) => {
                    push_pass(out, pass);
                    self.seq = copy_bytes(rest);
                    self.inflight = Some(marker);
                    self.scan_from = m;
                    proof {
                        let held = InterceptorState {
                            seq: rest@,
                            inflight: Some(marker),
                            scan_from: m as int,
                            ..was
                        };
                        assert(self@ =~= held);
                    }
                    self.enforce_cap(marker);
                    return;
                },
            }
        }
        let ghost tail = data@.skip(from as int);
        let pass = slice_subrange(data, from, data.len());
        assert(pass@ =~= tail);
        proof {
            reveal(InterceptorState::scanned);
        }
        push_pass(out, pass);
    }

    /// Take one read; the steps to apply, in order.
    pub fn feed(&mut self, chunk: &[u8]) -> (out: Vec<Step>)
        requires
            old(self).wf(),
        ensures
            final(self).wf(),
            final(self)@ == old(self)@.fed(chunk@).0,
            step_views(out@) == old(self)@.fed(chunk@).1,
    {
        let mut out: Vec<Step> = Vec::new();
        assert(step_views(out@) =~= Seq::<StepView>::empty());
        let ghost was = self@;
        push_bytes(&mut self.seq, chunk);
        let ghost seq = was.seq + chunk@;
        assert(self@ =~= (InterceptorState { seq, ..was }));
        assert(self@.idle() =~= was.idle());
        if let Some(marker) = self.inflight {
            proof {
                lemma_first_stop(seq, marker, was.scan_from);
                if !was.overflow {
                    assert(begins(seq, marker_bytes(marker))) by {
                        assert(seq.take(marker_bytes(marker).len() as int) =~= was.seq.take(
                            marker_bytes(marker).len() as int,
                        ));
                    }
                    lemma_end_past_marker(seq, marker, was.scan_from);
                }
            }
            match scan_string(self.seq.as_slice(), marker, self.scan_from) {
                StringEnd::More(m) => {
                    self.scan_from = m;
                    assert(self@ =~= (InterceptorState { seq, scan_from: m as int, ..was }));
                    self.enforce_cap(marker);
                },
                StringEnd::End(end) => {
                    let overflowed = self.overflow;
                    let buf = self.finish_inflight();
                    let whole = slice_subrange(buf.as_slice(), 0, end);
                    let rest = slice_subrange(buf.as_slice(), end, buf.len());
                    assert(whole@ =~= seq.take(end as int));
                    assert(rest@ =~= seq.skip(end as int));
                    if overflowed {
                        push_tee(&mut out, whole, Segment::Drop);
                        self.cancel_accum(marker);
                    } else {
                        let seg = self.parse_sequence(marker, whole);
                        push_tee(&mut out, whole, seg);
                        proof {
                            lemma_parsed_idle(was.idle(), marker, whole@);
                        }
                    }
                    self.scan(rest, &mut out);
                },
                StringEnd::Abort(resume) => {
                    let buf = self.finish_inflight();
                    let whole = slice_subrange(buf.as_slice(), 0, resume);
                    let rest = slice_subrange(buf.as_slice(), resume, buf.len());
                    assert(whole@ =~= seq.take(resume as int));
                    assert(rest@ =~= seq.skip(resume as int));
                    push_tee(&mut out, whole, Segment::Drop);
                    self.cancel_accum(marker);
                    self.scan(rest, &mut out);
                },
            }
            return out;
        }
        let data = self.finish_inflight();
        self.scan(data.as_slice(), &mut out);
        out
    }
}

/// Scanning up to the first place at which something begins.
pub(crate) proof fn lemma_scan_at(st: InterceptorState, data: Seq<u8>, k: int)
    requires
        0 <= k < data.len(),
        st.first_opening(data, 0) == st.first_opening(data, k),
        data[k] == 0x1b,
        st.opening(data.skip(k)) != Opening::No,
    ensures
        st.first_opening(data, 0) == k,
        ({
            let rest = data.skip(k);
            let pass = pass_steps(data.take(k));
            match st.opening(rest) {
                Opening::Start(m) => match string_end(rest, m, 1) {
                    Ending::End(e) => {
                        let (st1, seg) = st.parsed(m, rest.take(e));
                        let (end, more) = st1.scanned(rest.skip(e));
                        st.scanned(data) == (end, pass + seq![tee_step(rest.take(e), seg)] + more)
                    },
                    Ending::Abort(r) => {
                        let (end, more) = st.cancelled(m).scanned(rest.skip(r));
                        st.scanned(data) == (
                            end,
                            pass + seq![StepView::TerminalOnly(rest.take(r))] + more,
                        )
                    },
                    Ending::More(i) => st.scanned(data) == (
                        InterceptorState {
                            seq: rest,
                            inflight: Some(m),
                            scan_from: i,
                            ..st
                        }.capped(m),
                        pass,
                    ),
                },
                _ => st.scanned(data) == (InterceptorState { seq: rest, ..st }, pass),
            }
        }),
{
    reveal(InterceptorState::scanned);
}

/// Parsing a sequence leaves what is held, and the protocols, as they are.
pub(crate) proof fn lemma_parsed_idle(st: InterceptorState, m: Marker, seq: Seq<u8>)
    ensures
        ({
            let end = st.parsed(m, seq).0;
            &&& end.seq == st.seq
            &&& end.inflight == st.inflight
            &&& end.scan_from == st.scan_from
            &&& end.overflow == st.overflow
            &&& end.do_kitty == st.do_kitty
            &&& end.do_iterm == st.do_iterm
            &&& end.do_sixel == st.do_sixel
            &&& end.transcode == st.transcode
        }),
{
    reveal(InterceptorState::parsed);
}

} // verus!
