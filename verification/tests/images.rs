//! Images in a terminal's output.
use base64::engine::general_purpose::STANDARD as B64;
use base64::Engine;
use shellglass::images::{
    encode_png, finish_deferred, scan_string, sixel_dcs, sniff_mime, DeferredImage,
    DeferredPayload, GfxProto, Image, Interceptor, Marker, Step, StringEnd, DCS, MAX_B64_BYTES,
    MAX_SEQ_BYTES,
};
use std::io::Write;

// 1x1 transparent PNG.
fn png_b64() -> String {
    B64.encode([
        0x89, 0x50, 0x4e, 0x47, 0x0d, 0x0a, 0x1a, 0x0a, 0x00, 0x00, 0x00, 0x0d, 0x49, 0x48,
        0x44, 0x52, 0x00, 0x00, 0x00, 0x01, 0x00, 0x00, 0x00, 0x01, 0x08, 0x06, 0x00, 0x00,
        0x00, 0x1f, 0x15, 0xc4, 0x89, 0x00, 0x00, 0x00, 0x0a, 0x49, 0x44, 0x41, 0x54, 0x78,
        0x9c, 0x63, 0x00, 0x01, 0x00, 0x00, 0x05, 0x00, 0x01, 0x0d, 0x0a, 0x2d, 0xb4, 0x00,
        0x00, 0x00, 0x00, 0x49, 0x45, 0x4e, 0x44, 0xae, 0x42, 0x60, 0x82,
    ])
}

fn only_images(steps: Vec<Step>) -> Vec<Image> {
    steps
        .into_iter()
        .filter_map(|s| match s {
            Step::Image(_, i) => Some(i),
            // Materialize deferred payloads exactly like the pty worker
            // does, so the decode round-trip assertions keep covering
            // the sixel / kitty-raw paths.
            Step::Deferred(_, d) => {
                let (bytes, px) = finish_deferred(&d.payload, false)?;
                Some(Image {
                    mime: "image/png".to_string(),
                    bytes,
                    cells: d.cells,
                    px: Some(px),
                })
            }
            Step::Passthrough(_) | Step::TerminalOnly(_) | Step::Reject(_) => None,
        })
        .collect()
}

/// Concatenate the local-terminal tee bytes across steps — what the operator's
/// terminal sees (passthrough + rendered sequences, minus rejected ones).
fn tee_bytes(steps: &[Step]) -> Vec<u8> {
    steps
        .iter()
        .filter_map(|s| s.tee())
        .flatten()
        .copied()
        .collect()
}

/// The injected app-bound responses (kitty rejections) across steps.
fn rejections(steps: &[Step]) -> Vec<Vec<u8>> {
    steps
        .iter()
        .filter_map(|s| match s {
            Step::Reject(r) => Some(r.clone()),
            _ => None,
        })
        .collect()
}

// The heavy paths must come out DEFERRED (stamp now, decode on the
// worker): sixel with raster attributes carries its dims up front; a
// kitty raw framebuffer carries them in the transmission params. The
// fast-compression variant must still be a valid PNG.
#[test]
fn heavy_paths_defer_with_upfront_dims() {
    let mut it = Interceptor::new();
    let sixel = b"\x1bPq\"1;1;4;2#0;2;100;0;0#0~~~~$-\x1b\\";
    let segs = it.feed(sixel);
    let d = segs
        .iter()
        .find_map(|s| match s {
            Step::Deferred(_, d) => Some(d.clone()),
            _ => None,
        })
        .expect("sixel with raster attributes defers");
    assert_eq!(d.px, (4, 2), "dims from raster attributes, no decode");
    assert!(matches!(d.payload, DeferredPayload::Sixel(_)));
    // Both compression levels produce decodable PNGs of the same size.
    let (norm, px) = finish_deferred(&d.payload, false).expect("decodes");
    let (fast, px2) = finish_deferred(&d.payload, true).expect("decodes fast");
    assert_eq!(px, px2);
    for png_bytes in [&norm, &fast] {
        let dec = png::Decoder::new(std::io::Cursor::new(png_bytes));
        let reader = dec.read_info().expect("valid PNG");
        assert_eq!((reader.info().width, reader.info().height), (px.0, px.1));
    }

    let mut it = Interceptor::new();
    let raw = [0u8; 2 * 2 * 4];
    let s = format!("\x1b_Ga=T,f=32,t=d,s=2,v=2;{}\x1b\\", B64.encode(raw));
    let kitty = it.feed(s.as_bytes());
    assert!(
        kitty.iter().any(|s| matches!(
            s,
            Step::Deferred(
                _,
                DeferredImage {
                    payload: DeferredPayload::Raw { .. },
                    px: (2, 2),
                    ..
                }
            )
        )),
        "kitty raw framebuffer defers with metadata dims"
    );
}

#[test]
fn iterm_inline_image_extracted_with_passthrough() {
    let mut it = Interceptor::new();
    let b64 = png_b64();
    let stream = format!("hi\x1b]1337;File=inline=1;width=4;height=2:{b64}\x07bye");
    let segs = it.feed(stream.as_bytes());

    // Text before and after passes through; image pulled out with size hint.
    assert_eq!(only_pass(&segs), b"hibye");
    let imgs = only_images(segs);
    assert_eq!(imgs.len(), 1);
    assert_eq!(imgs[0].mime, "image/png");
    assert_eq!(imgs[0].cells, Some((4, 2)));
    assert_eq!(imgs[0].bytes, B64.decode(&b64).unwrap());
}

#[test]
fn iterm_multipart_image_reassembled() {
    // MultipartFile (metadata, no data) → FilePart* (base64 chunks) → FileEnd.
    // Only FileEnd yields the image; the cell hint comes from the opener.
    let mut it = Interceptor::new();
    let b64 = png_b64();
    let (p1, p2) = b64.split_at(9);
    let mut segs = it.feed(b"\x1b]1337;MultipartFile=inline=1;width=4;height=2\x07");
    segs.extend(it.feed(format!("\x1b]1337;FilePart={p1}\x07").as_bytes()));
    segs.extend(it.feed(format!("\x1b]1337;FilePart={p2}\x07").as_bytes()));
    assert!(only_images(segs).is_empty(), "no image until FileEnd");
    let end = it.feed(b"\x1b]1337;FileEnd\x07");
    let imgs = only_images(end);
    assert_eq!(imgs.len(), 1);
    assert_eq!(imgs[0].mime, "image/png");
    assert_eq!(imgs[0].cells, Some((4, 2)));
    assert_eq!(imgs[0].bytes, B64.decode(&b64).unwrap());
}

#[test]
fn gated_off_protocol_passes_through() {
    // Kitty + sixel off (terminal doesn't support them): those sequences are not
    // consumed — they pass through to the screen, matching what the terminal shows.
    let mut it = Interceptor::with(false, true, false, None, (10, 20));
    let s = format!("\x1b_Ga=T,f=100,t=d;{}\x1b\\", png_b64());
    let sixel = icy_sixel::SixelImage::from_rgba(vec![255, 0, 0, 255], 1, 1)
        .encode()
        .unwrap();
    let stream = format!("{s}{sixel}");
    let segs = it.feed(stream.as_bytes());
    assert!(only_images(segs.clone()).is_empty());
    let passed = only_pass(&segs);
    assert_eq!(
        passed,
        stream.as_bytes(),
        "gated-off bytes reach the screen verbatim"
    );
    // iTerm2 is still intercepted (its flag is on).
    let mut it2 = Interceptor::with(false, true, false, None, (10, 20));
    let s2 = format!("\x1b]1337;File=inline=1:{}\x07", png_b64());
    assert_eq!(only_images(it2.feed(s2.as_bytes())).len(), 1);
}

#[test]
fn sixel_dcs_decoded_to_png() {
    // Round-trip: encode a 2x2 image to a sixel DCS, feed it through, and confirm
    // it comes back out as a PNG with pixel dims (no cell hint → derived later).
    let rgba = vec![
        255, 0, 0, 255, 0, 255, 0, 255, 0, 0, 255, 255, 255, 255, 0, 255,
    ];
    let sixel = icy_sixel::SixelImage::from_rgba(rgba, 2, 2)
        .encode()
        .unwrap();
    assert!(sixel.as_bytes().starts_with(&DCS), "emitter produces a DCS");
    let mut it = Interceptor::new();
    let imgs = only_images(it.feed(sixel.as_bytes()));
    assert_eq!(imgs.len(), 1);
    assert_eq!(imgs[0].mime, "image/png");
    // Sixel packs rows into 6px bands, so a round-tripped 2x2 can come back
    // padded to 2x6 — we don't assert exact dims, just that they're carried.
    let (w, h) = imgs[0].px.unwrap();
    assert_eq!(w, 2);
    assert!(h >= 2);
    assert_eq!(imgs[0].cells, None);
}

fn sample_sixel() -> Vec<u8> {
    let rgba = vec![
        255, 0, 0, 255, 0, 255, 0, 255, 0, 0, 255, 255, 255, 255, 0, 255,
    ];
    icy_sixel::SixelImage::from_rgba(rgba, 2, 2)
        .encode()
        .unwrap()
        .into_bytes()
}

#[test]
fn sixel_transcodes_to_kitty_placeholders_when_terminal_lacks_sixel() {
    // Kitty-graphics terminal, no native sixel → the sixel is
    // decoded and re-teed as a kitty VIRTUAL PLACEMENT + Unicode placeholder
    // cells (so it scrolls with the grid), while the mirror still gets a PNG.
    let sixel = sample_sixel();
    let mut it = Interceptor::with(true, false, true, Some(GfxProto::Kitty), (10, 20));
    let steps = it.feed(&sixel);
    let tee = tee_bytes(&steps);
    assert!(contains(&tee, b"\x1b_G"), "transmits a kitty image");
    assert!(
        contains(&tee, b"U=1"),
        "as a virtual placement (Unicode placeholder)"
    );
    assert!(
        contains(&tee, "\u{10EEEE}".as_bytes()),
        "lays down placeholder cells"
    );
    assert!(
        !contains(&tee, &DCS),
        "no raw sixel DCS reaches the terminal"
    );
    assert_eq!(only_images(steps).len(), 1, "mirror still gets one image");
}

#[test]
fn kitty_transcode_reuses_id_on_reemission() {
    // tmux re-emits the same sixel on every scroll: the second time carries the
    // placeholder cells but NOT another image transmission (id + PNG are reused).
    let sixel = sample_sixel();
    let mut it = Interceptor::with(true, false, true, Some(GfxProto::Kitty), (10, 20));
    let first = tee_bytes(&it.feed(&sixel));
    assert!(contains(&first, b"a=T,U=1"), "first sight transmits");
    let again = tee_bytes(&it.feed(&sixel));
    assert!(
        !contains(&again, b"\x1b_G"),
        "re-emission does not re-transmit"
    );
    assert!(
        contains(&again, "\u{10EEEE}".as_bytes()),
        "re-emission still lays placeholders"
    );
}

#[test]
fn sixel_transcodes_to_iterm_when_terminal_lacks_sixel() {
    let sixel = sample_sixel();
    let mut it = Interceptor::with(false, true, true, Some(GfxProto::Iterm), (10, 20));
    let tee = tee_bytes(&it.feed(&sixel));
    assert!(
        contains(&tee, b"\x1b]1337;File=inline=1"),
        "tee is an iTerm2 OSC"
    );
    assert!(!contains(&tee, &DCS));
}

#[test]
fn native_sixel_terminal_keeps_the_raw_fast_path() {
    // transcode=None: the deferred path stays, tee is the sixel verbatim.
    let sixel = sample_sixel();
    let mut it = Interceptor::with(false, false, true, None, (10, 20));
    assert_eq!(tee_bytes(&it.feed(&sixel)), sixel, "sixel teed unchanged");
}

fn contains(hay: &[u8], needle: &[u8]) -> bool {
    hay.windows(needle.len()).any(|w| w == needle)
}

#[test]
fn sixel_dcs_classification() {
    assert_eq!(sixel_dcs(b"\x1bP0;1;0q\"1;1"), Some(true)); // sixel
    assert_eq!(sixel_dcs(b"\x1bP$qm"), Some(false)); // DECRQSS, not sixel
    assert_eq!(sixel_dcs(b"\x1bP0;1;0"), None); // header split before the `q`
    assert_eq!(sixel_dcs(&DCS), None);
}

#[test]
fn iterm_orphan_filepart_ignored() {
    // A FilePart/FileEnd with no opening MultipartFile must not panic or emit.
    let mut it = Interceptor::new();
    let mut segs = it.feed(b"\x1b]1337;FilePart=AAAA\x07");
    segs.extend(it.feed(b"\x1b]1337;FileEnd\x07"));
    assert!(only_images(segs).is_empty());
}

#[test]
fn image_carries_pixel_dims() {
    // px lets pty.rs derive a cell count (and advance the cursor) for an image
    // with no app-given size. png_b64 is a 1x1 PNG.
    let mut it = Interceptor::new();
    let s = format!("\x1b]1337;File=inline=1:{}\x07", png_b64());
    let imgs = only_images(it.feed(s.as_bytes()));
    assert_eq!(imgs[0].px, Some((1, 1)));
}

#[test]
fn sequence_split_across_two_reads() {
    let mut it = Interceptor::new();
    let b64 = png_b64();
    let full = format!("\x1b]1337;File=inline=1:{b64}\x07");
    let (a, b) = full.as_bytes().split_at(10); // mid-sequence boundary
    let mut segs = it.feed(a);
    segs.extend(it.feed(b));
    assert_eq!(only_images(segs).len(), 1);
}

#[test]
fn kitty_direct_png_chunked() {
    let mut it = Interceptor::new();
    let b64 = png_b64();
    let (p1, p2) = b64.split_at(8);
    // First chunk carries control (f=100 PNG, direct, c/r cells) + m=1; second m=0.
    let s1 = format!("\x1b_Ga=T,f=100,t=d,c=3,r=1,m=1;{p1}\x1b\\");
    let s2 = format!("\x1b_Gm=0;{p2}\x1b\\");
    let mut segs = it.feed(s1.as_bytes());
    segs.extend(it.feed(s2.as_bytes()));
    let imgs = only_images(segs);
    assert_eq!(imgs.len(), 1);
    assert_eq!(imgs[0].mime, "image/png");
    assert_eq!(imgs[0].cells, Some((3, 1)));
}

#[test]
fn kitty_raw_rgba_reencoded_as_png() {
    let mut it = Interceptor::new();
    // 2x2 raw RGBA with s/v pixel dims — must come out as a PNG that decodes
    // back to the exact same pixels (round-trip through the real png crate).
    let src = [
        255, 0, 0, 255, 0, 255, 0, 255, 0, 0, 255, 255, 255, 255, 255, 255,
    ];
    let s = format!(
        "\x1b_Ga=T,f=32,t=d,s=2,v=2,c=1,r=1;{}\x1b\\",
        B64.encode(src)
    );
    let imgs = only_images(it.feed(s.as_bytes()));
    assert_eq!(imgs.len(), 1);
    assert_eq!(imgs[0].mime, "image/png");

    let png = imgs[0].bytes.clone();
    let decoder = png::Decoder::new(std::io::Cursor::new(&png));
    let mut reader = decoder.read_info().expect("valid PNG");
    assert_eq!((reader.info().width, reader.info().height), (2, 2));
    assert_eq!(reader.info().color_type, png::ColorType::Rgba);
    let mut buf = vec![0; reader.output_buffer_size().unwrap()];
    let frame = reader.next_frame(&mut buf).unwrap();
    assert_eq!(
        &buf[..frame.buffer_size()],
        &src[..],
        "pixels round-trip exactly"
    );
}

#[test]
fn kitty_unknown_and_indirect_mediums_dropped() {
    let mut it = Interceptor::new();
    // File transport is refused wholesale (never read) — see
    // file_and_shm_mediums_never_read_the_filesystem.
    let noent = B64.encode(b"/nonexistent/sg/does-not-exist.png");
    let s = format!("\x1b_Ga=T,f=100,t=f;{noent}\x1b\\");
    assert!(only_images(it.feed(s.as_bytes())).is_empty());
    // An unknown transmission medium is dropped.
    let s = format!("\x1b_Ga=T,f=100,t=x;{}\x1b\\", png_b64());
    assert!(only_images(it.feed(s.as_bytes())).is_empty());
}

/// The bytes the screen sees — [`Step::Passthrough`] only, NOT the original bytes of
/// rendered sequences (those tee to the terminal but never reach the parser).
fn only_pass(steps: &[Step]) -> Vec<u8> {
    steps
        .iter()
        .filter_map(|s| match s {
            Step::Passthrough(b) => Some(b.clone()),
            _ => None,
        })
        .flatten()
        .collect()
}

#[test]
fn unterminated_sequence_cancelled_by_next_escape() {
    // Ctrl-C mid-transfer: the app dies before sending ST. The next escape
    // sequence (the prompt repaint) cancels the string — exactly what the
    // real terminal and the parser do — so the mirror keeps flowing instead
    // of buffering the rest of the session forever.
    let mut it = Interceptor::new();
    assert!(it.feed(b"\x1b_Gf=100,t=d;AAAA").is_empty());
    let segs = it.feed(b"\x1b[2K$ ls");
    assert!(only_images(segs.clone()).is_empty());
    assert_eq!(
        only_pass(&segs),
        b"\x1b[2K$ ls",
        "the cancelling bytes reach the screen"
    );
    // The interceptor is fully recovered: a complete image still comes out.
    let s = format!("\x1b]1337;File=inline=1:{}\x07", png_b64());
    assert_eq!(only_images(it.feed(s.as_bytes())).len(), 1);
}

#[test]
fn can_cancels_sequence_within_one_read() {
    let mut it = Interceptor::new();
    let segs = it.feed(b"before\x1b_Gf=100,t=d;AAAA\x18after");
    assert!(only_images(segs.clone()).is_empty());
    assert_eq!(only_pass(&segs), b"beforeafter");
}

#[test]
fn cancellation_clears_multipart_accumulator() {
    let mut it = Interceptor::new();
    let mut segs = it.feed(b"\x1b]1337;MultipartFile=inline=1;width=4;height=2\x07");
    // A FilePart cancelled mid-payload breaks the whole transfer…
    segs.extend(it.feed(b"\x1b]1337;FilePart=AAAA\x18"));
    // …so FileEnd must not emit a half-baked image.
    segs.extend(it.feed(b"\x1b]1337;FileEnd\x07"));
    assert!(only_images(segs).is_empty());
}

#[test]
fn runaway_sequence_memory_bounded_and_dropped() {
    // A sequence that never terminates is condemned once it outgrows the cap:
    // its bytes are discarded as they stream (memory stays ~one PTY read) and
    // its eventual terminator yields nothing.
    let mut it = Interceptor::new();
    assert!(it.feed(b"\x1b_Gf=100,t=d;").is_empty());
    let chunk = [b'A'; 4096];
    for _ in 0..(MAX_SEQ_BYTES / chunk.len() + 4) {
        assert!(it.feed(&chunk).is_empty());
    }
    assert!(
        it.carried_len() <= chunk.len() + 1,
        "drain mode keeps only a tail, not {} bytes",
        it.carried_len()
    );
    // The terminator finally arrives: the condemned sequence is dropped and
    // the stream flows again.
    let segs = it.feed(b"\x1b\\after");
    assert!(only_images(segs.clone()).is_empty());
    assert_eq!(only_pass(&segs), b"after");
    let s = format!("\x1b]1337;File=inline=1:{}\x07", png_b64());
    assert_eq!(only_images(it.feed(s.as_bytes())).len(), 1);
}

#[test]
fn st_split_between_reads() {
    // The two-byte ST split exactly at the read boundary — the resumed scan
    // must recheck the trailing ESC, not skip past it.
    let mut it = Interceptor::new();
    let s = format!("\x1b_Ga=T,f=100,t=d;{}", png_b64());
    let mut segs = it.feed(s.as_bytes());
    segs.extend(it.feed(b"\x1b"));
    assert!(only_images(segs.clone()).is_empty());
    segs.extend(it.feed(b"\\"));
    assert_eq!(only_images(segs).len(), 1);
}

#[test]
fn large_sequence_reassembled_across_many_small_reads() {
    // A multi-hundred-KB kitty transfer arriving in 4 KB PTY reads (the real
    // shape of an `imgcat`-sized image) comes out intact — the resumed scan
    // handles arbitrary boundaries, including inside the payload.
    let mut it = Interceptor::new();
    let (w, h) = (300u32, 300u32);
    let raw = vec![0x7fu8; (w * h * 4) as usize];
    let seq = format!("\x1b_Ga=T,f=32,t=d,s={w},v={h};{}\x1b\\", B64.encode(&raw));
    let mut imgs = Vec::new();
    for chunk in seq.as_bytes().chunks(4096) {
        imgs.extend(only_images(it.feed(chunk)));
    }
    assert_eq!(imgs.len(), 1);
    assert_eq!(imgs[0].mime, "image/png");
    assert_eq!(imgs[0].px, Some((w, h)));
}

#[test]
fn kitty_non_display_actions_render_nothing() {
    // Only `a=T` (transmit-and-display) draws at the cursor. A capability
    // query — including the exact probe shellglass itself sends in pty.rs —
    // a transmit-only, a delete, or an action-less sequence (spec default is
    // `t`) must not become a phantom web image.
    for seq in [
        "\x1b_Gi=1,a=q,s=1,v=1,t=d,f=24;AAAA\x1b\\".to_string(), // pty.rs's own probe
        format!("\x1b_Ga=t,f=100,t=d;{}\x1b\\", png_b64()),      // transmit-only
        format!("\x1b_Gf=100,t=d;{}\x1b\\", png_b64()),          // no action ⇒ default t
        "\x1b_Ga=d,d=A\x1b\\".to_string(),                       // delete
    ] {
        let mut it = Interceptor::new();
        assert!(
            only_images(it.feed(seq.as_bytes())).is_empty(),
            "non-display action rendered an image: {seq:?}"
        );
    }
}

#[test]
fn kitty_query_never_reads_referenced_file() {
    // `a=q` with a file medium must not touch the filesystem: the query asks
    // "can you?", it doesn't transmit.
    let b64path = B64.encode("/tmp/sg_query_no_read_test.png");
    let mut it = Interceptor::new();
    let s = format!("\x1b_Ga=q,f=100,t=f;{b64path}\x1b\\");
    let imgs = only_images(it.feed(s.as_bytes()));
    assert!(imgs.is_empty());
}

#[test]
fn iterm_download_not_displayed() {
    // `inline=0` — and iTerm2's default of no `inline` key at all — is a file
    // *download*: the real terminal saves it and renders nothing.
    let b64 = png_b64();
    for seq in [
        format!("\x1b]1337;File=name=cGljLnBuZw==;inline=0:{b64}\x07"),
        format!("\x1b]1337;File=name=cGljLnBuZw==:{b64}\x07"),
    ] {
        let mut it = Interceptor::new();
        assert!(
            only_images(it.feed(seq.as_bytes())).is_empty(),
            "download displayed as inline image: {seq:?}"
        );
    }
}

#[test]
fn iterm_multipart_download_not_displayed() {
    // A multipart transfer without inline=1 opens no accumulator, so its
    // parts and end are no-ops.
    let mut it = Interceptor::new();
    let b64 = png_b64();
    let mut segs = it.feed(b"\x1b]1337;MultipartFile=inline=0;width=4;height=2\x07");
    segs.extend(it.feed(format!("\x1b]1337;FilePart={b64}\x07").as_bytes()));
    segs.extend(it.feed(b"\x1b]1337;FileEnd\x07"));
    assert!(only_images(segs).is_empty());
}

#[test]
fn file_and_shm_mediums_never_read_the_filesystem() {
    // A kitty file/shm transmission must NOT read the referenced path: the mirror
    // never opens a path from the stream, and nothing is extracted.
    let p64 = B64.encode("/etc/hostname");
    for medium in ["f", "t", "s"] {
        let mut it = Interceptor::new();
        let seq = format!("\x1b_Ga=T,f=24,t={medium},s=2,v=2;{p64}\x1b\\");
        let segs = it.feed(seq.as_bytes());
        assert!(
            only_images(segs.clone()).is_empty(),
            "t={medium} must produce no image (no file read)"
        );
        // And it is SUPPRESSED from the local terminal (empty tee) — so a
        // detect-mode client's fallback resend won't double-render — and a
        // kitty error is injected to the app to trigger that fallback.
        assert!(
            tee_bytes(&segs).is_empty(),
            "t={medium} must not reach the local terminal"
        );
        assert_eq!(rejections(&segs).len(), 1, "t={medium} rejected to the app");
    }
}

#[test]
fn kitty_file_query_echoes_id_for_fallback() {
    // A detect-mode client tests file/shm support with an `a=q` query carrying
    // an image id. We must answer with a kitty error ECHOING that id so the
    // client correlates it, concludes the medium is unsupported, and falls back
    // to direct transmission (which we mirror). The query path never touches
    // the filesystem (payload is a bogus name — irrelevant, we don't read it).
    let mut it = Interceptor::new();
    let name = B64.encode("/some/shm-name");
    let segs = it.feed(format!("\x1b_Gi=31,s=1,v=1,a=q,t=s;{name}\x1b\\").as_bytes());
    let rej = rejections(&segs);
    assert_eq!(rej.len(), 1);
    let resp = String::from_utf8(rej[0].clone()).unwrap();
    assert!(
        resp.starts_with("\x1b_Gi=31;E"),
        "echoes id, error code: {resp:?}"
    );
    assert!(resp.ends_with("\x1b\\"));
    assert!(
        tee_bytes(&segs).is_empty(),
        "query suppressed from terminal"
    );
    assert!(only_images(segs).is_empty());
}

#[test]
fn kitty_direct_still_mirrors_and_tees() {
    // A direct image is mirrored AND its original
    // bytes tee to the local terminal (which renders it natively).
    let mut it = Interceptor::new();
    let s = format!("\x1b_Ga=T,f=100,t=d;{}\x1b\\", png_b64());
    let segs = it.feed(s.as_bytes());
    assert_eq!(only_images(segs.clone()).len(), 1, "mirrored");
    assert_eq!(
        tee_bytes(&segs),
        s.as_bytes(),
        "teed verbatim to the terminal"
    );
    assert!(rejections(&segs).is_empty());
}

#[test]
fn oversized_direct_payload_dropped_on_every_path() {
    // An image the wire could never carry (full frame > MAX_WS_MESSAGE would
    // wedge push mode in a reconnect loop) must be dropped, not forwarded —
    // for kitty direct, single-shot iTerm2, and multipart iTerm2 alike.
    let big = "A".repeat(MAX_B64_BYTES + 4);
    for seq in [
        format!("\x1b_Ga=T,f=100,t=d;{big}\x1b\\"),
        format!("\x1b]1337;File=inline=1:{big}\x07"),
    ] {
        let mut it = Interceptor::new();
        let mut segs = Vec::new();
        for chunk in seq.as_bytes().chunks(1 << 20) {
            segs.extend(it.feed(chunk));
        }
        assert!(only_images(segs).is_empty(), "oversized image forwarded");
    }
    let mut it = Interceptor::new();
    let mut segs = it.feed(b"\x1b]1337;MultipartFile=inline=1\x07");
    for part in big.as_bytes().chunks(1 << 20) {
        let seq = format!(
            "\x1b]1337;FilePart={}\x07",
            std::str::from_utf8(part).unwrap()
        );
        segs.extend(it.feed(seq.as_bytes()));
    }
    segs.extend(it.feed(b"\x1b]1337;FileEnd\x07"));
    assert!(
        only_images(segs).is_empty(),
        "oversized multipart forwarded"
    );
}

#[test]
fn zlib_bomb_dropped_after_inflate() {
    // o=z: a tiny payload inflating past MAX_IMAGE_BYTES must die at the
    // post-inflate check, before PNG encoding buffers it for the wire.
    let raw = vec![0u8; (2100 * 2100 * 4) as usize]; // ~17.6 MB of zeros
    let mut enc = flate2::write::ZlibEncoder::new(Vec::new(), flate2::Compression::default());
    enc.write_all(&raw).unwrap();
    let bomb = B64.encode(enc.finish().unwrap());
    assert!(
        bomb.len() < MAX_B64_BYTES,
        "the *transmitted* payload is small"
    );
    let mut it = Interceptor::new();
    let s = format!("\x1b_Ga=T,f=32,o=z,t=d,s=2100,v=2100;{bomb}\x1b\\");
    let mut segs = Vec::new();
    for chunk in s.as_bytes().chunks(1 << 20) {
        segs.extend(it.feed(chunk));
    }
    assert!(only_images(segs).is_empty());
}

#[test]
fn zero_cell_hints_fall_back_to_natural_size() {
    // width=0 / c=0 must read as "unspecified", not a zero-width image —
    // both protocols define 0 as "auto".
    let b64 = png_b64();
    let mut it = Interceptor::new();
    let s = format!("\x1b]1337;File=inline=1;width=0;height=0:{b64}\x07");
    let imgs = only_images(it.feed(s.as_bytes()));
    assert_eq!(imgs.len(), 1);
    assert_eq!(imgs[0].cells, None, "zero hint ⇒ natural size");
    let mut it = Interceptor::new();
    let s = format!("\x1b_Ga=T,f=100,t=d,c=0,r=0;{b64}\x1b\\");
    let imgs = only_images(it.feed(s.as_bytes()));
    assert_eq!(imgs.len(), 1);
    assert_eq!(imgs[0].cells, None);
}

#[test]
fn non_image_escapes_pass_through_untouched() {
    // The interceptor only extracts images; a clear/alt-screen sequence is not
    // its concern, so it
    // must pass straight through to the screen.
    let mut it = Interceptor::new();
    let passed = only_pass(&it.feed(b"abc\x1b[2Jdef"));
    assert_eq!(passed, b"abc\x1b[2Jdef");
}

#[test]
fn image_types_are_told_by_their_first_bytes() {
    assert_eq!(sniff_mime(&B64.decode(png_b64()).unwrap()), Some("image/png"));
    assert_eq!(sniff_mime(&[0xff, 0xd8, 0xff, 0xe0]), Some("image/jpeg"));
    assert_eq!(sniff_mime(b"GIF89a"), Some("image/gif"));
    assert_eq!(sniff_mime(b"RIFF\0\0\0\0WEBP"), Some("image/webp"));
    assert_eq!(sniff_mime(b"hello"), None);
}

#[test]
fn pixels_of_another_length_make_no_file() {
    assert!(encode_png(2, 2, 4, &[0; 16], false).is_some());
    assert!(encode_png(2, 2, 4, &[0; 15], false).is_none());
    assert!(encode_png(0, 0, 4, &[], false).is_none());
}

#[test]
fn reads_may_be_split_anywhere() {
    let s = format!("hi\x1b_Ga=T,f=100,t=d;{}\x1b\\there\x1b[1m", png_b64());
    let whole = Interceptor::new().feed(s.as_bytes());
    for k in 0..s.len() {
        let mut it = Interceptor::new();
        let mut steps = it.feed(&s.as_bytes()[..k]);
        steps.extend(it.feed(&s.as_bytes()[k..]));
        assert_eq!(only_pass(&steps), only_pass(&whole), "split at {k}");
        assert_eq!(tee_bytes(&steps), tee_bytes(&whole), "split at {k}");
        assert_eq!(only_images(steps), only_images(whole.clone()), "split at {k}");
    }
}

#[test]
fn ends_of_strings_are_found() {
    assert!(matches!(scan_string(b"\x1b_Gabc\x1b\\x", Marker::Kitty, 3), StringEnd::End(8)));
    assert!(matches!(scan_string(b"\x1b_Gabc", Marker::Kitty, 3), StringEnd::More(_)));
}

#[test]
fn a_declared_size_that_is_too_large_is_the_largest() {
    let mut it = Interceptor::new();
    let steps = it.feed(b"\x1bPq\"1;1;4294967296;2#0~\x1b\\");
    let d = steps.iter().find_map(|s| match s {
        Step::Deferred(_, d) => Some(d.clone()),
        _ => None,
    });
    assert_eq!(d.expect("placed by its declared size").px, (u32::MAX, 2));
    assert_eq!(tee_bytes(&steps), b"\x1bPq\"1;1;4294967296;2#0~\x1b\\");
}

#[test]
fn a_stream_in_many_reads_is_shown_but_for_what_is_refused() {
    let image = format!("\x1b_Ga=T,f=100,t=d;{}\x1b\\", png_b64());
    let refused = format!("\x1b_Ga=T,f=24,t=f,s=2,v=2;{}\x1b\\", B64.encode("/etc/hostname"));
    let stream = format!("one{image}two{refused}three\x1b[1m{image}");
    let kept = format!("one{image}twothree\x1b[1m{image}");
    for size in [1, 2, 3, 5, 7, 64] {
        let mut it = Interceptor::new();
        let mut steps = Vec::new();
        for chunk in stream.as_bytes().chunks(size) {
            steps.extend(it.feed(chunk));
        }
        assert_eq!(tee_bytes(&steps), kept.as_bytes(), "reads of {size}");
        assert_eq!(rejections(&steps).len(), 1, "reads of {size}");
        assert_eq!(only_images(steps).len(), 2, "reads of {size}");
    }
}
