//! The messages between a screen and its viewers.
use serde_json::Value;
use shellglass::diff::{
    apply_wire, cell_block, color_index, color_text, decode_block, diff_grids, encode,
    encode_delta, full_message, grid_rects, push_json_string, row_span, same_layout, style_index,
    CellBlock, Live, Text, Viewer, WireMsg, WireRect,
};
use shellglass::model::{CellStyle, Color, Frame, Grid, ImagePlacement, StyledCell};
use std::sync::Arc;

/// The text of what changed between two screens.
fn diff_message(a: &Grid, b: &Grid) -> Option<String> {
    diff_grids(a, b).map(|m| encode(&m))
}

/// The text of a whole screen.
fn full_message_grid(g: &Grid) -> String {
    full_message(&Frame::Screen(g.clone()))
}

/// The text of a notice.
fn banner_message(html: &str) -> String {
    full_message(&Frame::Banner(html.into()))
}

fn read_color(v: Option<&Value>) -> Color {
    match v {
        None => Color::Default,
        Some(Value::Array(a)) => {
            let n = |i: usize| a[i].as_u64().unwrap() as u8;
            Color::Rgb(n(0), n(1), n(2))
        }
        Some(v) => color_index(v.as_u64().unwrap()).unwrap(),
    }
}

fn read_style(v: &Value) -> CellStyle {
    let flag = |k: &str| v.get(k).and_then(Value::as_bool).unwrap_or(false);
    CellStyle {
        fg: read_color(v.get("f")),
        bg: read_color(v.get("g")),
        bold: flag("b"),
        dim: flag("d"),
        italic: flag("i"),
        underline: v.get("u").and_then(Value::as_u64).unwrap_or(0) as u8,
        strike: flag("s"),
        ulcolor: read_color(v.get("k")),
        inverse: flag("n"),
        wide: flag("w"),
    }
}

fn read_block(v: &Value) -> CellBlock {
    let text = v["t"].as_array().unwrap().iter().map(|t| match t.as_str() {
        Some(s) => Text::Glyph(s.into()),
        None => Text::Blank,
    });
    let mut style = Vec::new();
    if let Some(m) = v.get("s").and_then(Value::as_object) {
        for (k, s) in m {
            style.push((style_index(k).unwrap(), read_style(s)));
        }
    }
    style.sort_by_key(|(i, _)| *i);
    CellBlock { text: text.collect(), style }
}

fn read_cursor(v: &Value) -> Option<(u16, u16)> {
    let a = v.get("cur")?.as_array()?;
    Some((a[0].as_u64()? as u16, a[1].as_u64()? as u16))
}

fn read_images(v: &Value) -> Vec<ImagePlacement> {
    let none = Vec::new();
    let list = v.get("i").and_then(Value::as_array).unwrap_or(&none);
    let size = |i: &Value, k: &str| i.get(k).and_then(Value::as_u64).map(|n| n as u16);
    list.iter()
        .map(|i| ImagePlacement {
            row: i["r"].as_i64().unwrap() as i16,
            col: i["c"].as_u64().unwrap() as u16,
            cols: size(i, "w"),
            rows: size(i, "h"),
            mime: i["m"].as_str().unwrap().into(),
            data: Arc::new(i["d"].as_str().unwrap().into()),
        })
        .collect()
}

/// A message from its text.
fn read(msg: &str) -> Option<WireMsg> {
    let v: Value = serde_json::from_str(msg).ok()?;
    let style = v.get("q").and_then(Value::as_u64).unwrap_or(0) as u8;
    match v["t"].as_str()? {
        "f" => Some(WireMsg::Full {
            w: v["w"].as_u64()? as u16,
            h: v["h"].as_u64()? as usize,
            cur: read_cursor(&v),
            rows: v["rows"].as_array()?.iter().map(read_block).collect(),
            cursor_style: style,
            images: read_images(&v),
        }),
        "d" => Some(WireMsg::Diff {
            cur: read_cursor(&v),
            rects: v["rects"]
                .as_array()?
                .iter()
                .map(|r| WireRect {
                    top: r["top"].as_u64().unwrap() as usize,
                    left: r["left"].as_u64().unwrap() as usize,
                    w: r["w"].as_u64().unwrap() as usize,
                    h: r["h"].as_u64().unwrap() as usize,
                    block: read_block(r),
                })
                .collect(),
            cursor_style: style,
        }),
        "b" => Some(WireMsg::Banner { html: v["html"].as_str()?.into() }),
        _ => None,
    }
}

fn cell(c: char) -> StyledCell {
    StyledCell {
        text: c.to_string(),
        ..Default::default()
    }
}

/// A grid from rows of text (each char → a plain cell).
fn grid(rows: &[&str]) -> Grid {
    Grid {
        cols: rows.iter().map(|r| r.chars().count()).max().unwrap_or(0) as u16,
        rows: rows.iter().map(|r| r.chars().map(cell).collect()).collect(),
        cursor: None,
        cursor_style: 0,
        images: Vec::new(),
    }
}

/// The block's glyphs concatenated (blanks contribute nothing), for assertions.
fn glyphs(b: &CellBlock) -> String {
    b.text
        .iter()
        .map(|t| match t {
            Text::Glyph(g) => g.as_str(),
            Text::Blank => "",
        })
        .collect()
}

#[test]
fn one_changed_cell_is_one_small_rect() {
    let a = grid(&["abc", "def"]);
    let b = grid(&["abc", "dXf"]);
    let rects = grid_rects(&a, &b);
    assert_eq!(rects.len(), 1, "one contiguous change → one rect");
    let r = &rects[0];
    assert_eq!(
        (r.top, r.left, r.w, r.h),
        (1, 1, 1, 1),
        "rect bounds the cell"
    );
    assert_eq!(glyphs(&r.block), "X");
}

#[test]
fn adjacent_rows_with_equal_span_merge_vertically() {
    // Both rows change columns 1..=2 → one 2-high rectangle, not two.
    let a = grid(&["a..z", "a..z"]);
    let b = grid(&["aQQz", "aWWz"]);
    let rects = grid_rects(&a, &b);
    assert_eq!(rects.len(), 1, "equal spans merge: {rects:?}");
    let r = &rects[0];
    assert_eq!((r.top, r.left, r.w, r.h), (0, 1, 2, 2));
    assert_eq!(glyphs(&r.block), "QQWW", "h*w cells, row-major");
}

#[test]
fn scattered_rows_stay_separate_rects() {
    // Rows 0 and 2 change (different spans); row 1 unchanged → two rects.
    let a = grid(&["abcd", "efgh", "ijkl"]);
    let b = grid(&["Xbcd", "efgh", "ijYl"]);
    let rects = grid_rects(&a, &b);
    assert_eq!(rects.len(), 2);
    assert_eq!((rects[0].top, rects[0].left, rects[0].h), (0, 0, 1));
    assert_eq!((rects[1].top, rects[1].left, rects[1].h), (2, 2, 1));
}

#[test]
fn identical_screens_produce_no_message() {
    let a = grid(&["same", "rows"]);
    let b = grid(&["same", "rows"]);
    assert!(same_layout(&a, &b));
    assert!(diff_message(&a, &b).is_none(), "no change → no diff");
}

#[test]
fn cursor_only_move_still_diffs() {
    let mut a = grid(&["abc"]);
    let mut b = grid(&["abc"]);
    a.cursor = Some((0, 0));
    b.cursor = Some((0, 2));
    let msg = diff_message(&a, &b).expect("cursor move is a change");
    assert!(msg.contains("\"cur\":[0,2]"), "carries new cursor: {msg}");
    assert!(msg.contains("\"rects\":[]"), "no cell rects: {msg}");
}

#[test]
fn resize_is_not_a_diff() {
    let a = grid(&["abc"]);
    let b = grid(&["abc", "def"]); // different height
    assert!(!same_layout(&a, &b));
    let c = grid(&["abcd"]); // different width
    assert!(!same_layout(&a, &c), "width change forces a full frame");
}

#[test]
fn full_and_banner_messages_have_expected_shape() {
    let g = grid(&["hi"]);
    let full = full_message_grid(&g);
    assert!(full.starts_with("{\"t\":\"f\""), "{full}");
    // Rows are columnar: a dense text array, no style map for plain text.
    assert!(full.contains(r#""rows":[{"t":["h","i"]}]"#), "{full}");
    let banner = banner_message("oops");
    assert_eq!(banner, "{\"t\":\"b\",\"html\":\"oops\"}");
}

#[test]
fn columnar_block_keeps_text_dense_and_style_sparse() {
    // "a" plain, "B" bold+red, "c" plain → dense text, one sparse style entry.
    let mut b = grid(&["aBc"]);
    b.rows[0][1].bold = true;
    b.rows[0][1].fg = Color::Idx(1);
    let full = full_message_grid(&b);
    assert!(full.contains(r#""t":["a","B","c"]"#), "dense text: {full}");
    assert!(
        full.contains(r#""s":{"1":{"f":1,"b":true}}"#),
        "only the styled cell is in the sparse map: {full}"
    );
}

#[test]
fn blank_cells_encode_as_zero() {
    // 'a' then a blank (empty-text) cell → the blank rides as 0, not "".
    let mut g = grid(&["a"]);
    g.rows[0].push(StyledCell::default());
    let full = full_message_grid(&g);
    assert!(full.contains(r#""t":["a",0]"#), "blank cell is 0: {full}");
}

#[test]
fn full_frame_when_previous_was_a_banner() {
    let prev = Frame::Banner("starting".into());
    let next = Frame::Screen(grid(&["ok"]));
    let msg = encode_delta(&prev, &next).expect("banner → screen is a change");
    assert!(
        msg.starts_with("{\"t\":\"f\""),
        "screen after banner is full: {msg}"
    );
}

// ── decode/apply round trips (hub matrix must mirror every viewer) ────────

/// Apply an encoded wire message string onto a frame, as the hub does.
fn apply(prev: &Frame, msg: &str) -> Option<Frame> {
    apply_wire(prev, &read(msg).unwrap())
}

/// Grid equality up to trailing blank cells per row (a diff that shrinks a row
/// leaves explicit blanks where the origin simply has a shorter row — same
/// rendering, different cell count).
fn assert_grid_equiv(a: &Grid, b: &Grid) {
    let trim = |g: &Grid| {
        let mut g = g.clone();
        for row in &mut g.rows {
            while row.last() == Some(&StyledCell::default()) {
                row.pop();
            }
        }
        g
    };
    assert_eq!(trim(a), trim(b));
}

#[test]
fn full_message_roundtrips_through_apply() {
    // Wide + styled + blank cells all survive encode → decode → grid.
    let mut g = grid(&["a世c", "xyz"]);
    g.rows[0][1].wide = true;
    g.rows[0][2].fg = Color::Idx(9);
    g.rows[0][2].bg = Color::Rgb(1, 2, 3);
    g.rows[0][2].bold = true;
    g.rows[1].push(StyledCell::default()); // trailing blank rides as 0
    g.cursor = Some((1, 2));
    let prev = Frame::Banner("old".into());
    let applied = apply(&prev, &full_message_grid(&g)).expect("full applies");
    assert_eq!(applied, Frame::Screen(g));
}

#[test]
fn diff_message_roundtrips_through_apply() {
    // Styled change + jagged row growth + cursor move, applied at the "hub".
    // Diffs only ever happen between same-layout grids, so pin cols.
    let mut a = grid(&["hello", "sh"]);
    let mut b = grid(&["heLLo", "sh $ ls -la"]);
    a.cols = 11;
    b.rows[0][2].fg = Color::Idx(2);
    b.rows[0][2].inverse = true;
    a.cursor = Some((0, 0));
    b.cursor = Some((1, 10));
    let msg = diff_message(&a, &b).expect("changes → diff");
    let applied = apply(&Frame::Screen(a), &msg).expect("diff applies");
    let Frame::Screen(applied) = applied else {
        panic!("diff yields a screen")
    };
    assert_grid_equiv(&applied, &b);
}

#[test]
fn diff_apply_handles_row_shrink() {
    // The new row is shorter; the diff writes explicit blanks over the tail.
    // (Same layout — only the row contents shrink, not the grid.)
    let a = grid(&["longline"]);
    let mut b = grid(&["log"]);
    b.cols = a.cols;
    let msg = diff_message(&a, &b).expect("shrink → diff");
    let Frame::Screen(applied) = apply(&Frame::Screen(a), &msg).unwrap() else {
        panic!("screen")
    };
    assert_grid_equiv(&applied, &b);
}

#[test]
fn diff_on_banner_is_dropped() {
    let a = grid(&["abc"]);
    let b = grid(&["abX"]);
    let msg = diff_message(&a, &b).unwrap();
    assert!(
        apply(&Frame::Banner("waiting".into()), &msg).is_none(),
        "a diff can't apply to a banner — must be dropped, not forwarded"
    );
}

#[test]
fn publish_wire_updates_current_and_forwards_verbatim() {
    let mut live = Live::new(Frame::Banner("waiting".into()));

    let g = grid(&["hi"]);
    let full = full_message_grid(&g);
    // A number says that the message is forwarded, as it came.
    assert_eq!(live.publish_wire(&read(&full).unwrap()), Some(1), "full forwarded, seq 1");
    assert_eq!(*live.current(), Frame::Screen(g.clone()), "matrix updated");

    // A diff advances both the matrix and the seq.
    let g2 = grid(&["hX"]);
    let dmsg = diff_message(&g, &g2).unwrap();
    assert_eq!(live.publish_wire(&read(&dmsg).unwrap()), Some(2), "diff forwarded");
    assert_eq!(*live.current(), Frame::Screen(g2), "diff applied to matrix");

    // Garbage is no message, and out-of-sync messages are dropped, not forwarded.
    assert!(read("not json").is_none());
    let mut live2 = Live::new(Frame::Banner("waiting".into()));
    assert_eq!(live2.publish_wire(&read(&dmsg).unwrap()), None, "diff-on-banner not forwarded");
    assert_eq!(live2.seq(), 0);
}

#[test]
fn snapshot_seq_covers_prior_deltas() {
    // A snapshot taken after publishes reports the seq of the last delta, so a viewer
    // skips everything up to it.
    let mut live = Live::new(Frame::Screen(grid(&["a"])));
    live.publish(Frame::Screen(grid(&["b"])));
    live.publish(Frame::Screen(grid(&["c"])));
    let (seq, full) = live.snapshot();
    assert_eq!(seq, 2, "two deltas published");
    assert_eq!(*live.current(), Frame::Screen(grid(&["c"])));
    assert!(full.contains("\"c\""));
    let viewer = Viewer::at(seq);
    assert!(!viewer.accepts(1) && !viewer.accepts(2) && viewer.accepts(3));
    // An unchanged publish is a no-op (no seq bump, no message).
    assert_eq!(live.publish(Frame::Screen(grid(&["c"]))), None);
    assert_eq!(live.snapshot().0, 2);
}

#[test]
fn a_viewer_that_lagged_skips_what_the_snapshot_covers() {
    let mut viewer = Viewer::at(0);
    assert!(viewer.accepts(1));
    viewer.resync(7);
    assert!(!viewer.accepts(7));
    assert!(viewer.accepts(8));
}

#[test]
fn a_block_reads_back() {
    let mut row = grid(&["aé\"b"]).rows.remove(0);
    row.push(StyledCell::default());
    row[1].underline = 3;
    row[1].ulcolor = Color::Rgb(1, 2, 3);
    row[2].strike = true;
    let b = cell_block(&row);
    assert_eq!(b.style.len(), 2);
    assert_eq!(decode_block(&b), row);
}

#[test]
fn json_strings_are_escaped() {
    let mut s = String::new();
    push_json_string(&mut s, "a\"\\\n\r\t\u{8}\u{c}\u{1}é</");
    assert_eq!(s, serde_json::to_string("a\"\\\n\r\t\u{8}\u{c}\u{1}é</").unwrap());
}

#[test]
fn style_keys_are_numbers() {
    assert_eq!(style_index("12"), Some(12));
    assert_eq!(style_index("+3"), None);
    assert_eq!(style_index(""), None);
    assert_eq!(style_index("x"), None);
}

#[test]
fn images_and_cursor_styles_ride_along() {
    let mut g = grid(&["hi"]);
    g.cursor_style = 5;
    g.images.push(ImagePlacement {
        row: -1,
        col: 2,
        cols: Some(3),
        rows: None,
        mime: "image/png".into(),
        data: Arc::new("QUJD".into()),
    });
    let full = full_message_grid(&g);
    assert!(full.contains("\"q\":5"), "{full}");
    let applied = apply(&Frame::Banner("old".into()), &full).expect("full applies");
    assert_eq!(applied, Frame::Screen(g.clone()));
    // Other images are another layout.
    let h = grid(&["hi"]);
    assert!(!same_layout(&g, &h));
    let msg = encode_delta(&Frame::Screen(g), &Frame::Screen(h)).unwrap();
    assert!(msg.starts_with("{\"t\":\"f\""), "{msg}");
}

#[test]
fn a_changed_cursor_style_is_a_diff() {
    let a = grid(&["hi"]);
    let mut b = grid(&["hi"]);
    b.cursor_style = 2;
    let msg = diff_message(&a, &b).expect("a change");
    let applied = apply(&Frame::Screen(a), &msg).unwrap();
    assert_eq!(applied, Frame::Screen(b));
}

#[test]
fn a_span_is_what_changed() {
    let old = grid(&["abcdef"]).rows.remove(0);
    let new = grid(&["abXdYf"]).rows.remove(0);
    assert_eq!(row_span(&old, &new), Some((2, 4)));
    assert_eq!(row_span(&old, &old), None);
}

#[test]
fn color_serde_is_compact_and_roundtrips() {
    // Idx rides as a bare number, Rgb as an array.
    assert_eq!(color_text(Color::Idx(9)), "9");
    assert_eq!(color_text(Color::Rgb(1, 2, 3)), "[1,2,3]");
    // All three forms are read (nothing = Default).
    let read = |s: &str| serde_json::from_str::<Value>(s).unwrap();
    assert_eq!(read_color(Some(&read("9"))), Color::Idx(9));
    assert_eq!(read_color(Some(&read("[1,2,3]"))), Color::Rgb(1, 2, 3));
    assert_eq!(read_color(None), Color::Default);
    assert_eq!(color_index(256), None);
}

#[test]
fn a_viewer_may_join_at_any_time() {
    let frames = ["one", "two", "two", "three", "thr"];
    for k in 0..=frames.len() {
        let mut live = Live::new(Frame::Screen(grid(&["start"])));
        let mut sent = Vec::new();
        let mut joined = live.snapshot();
        for (i, text) in frames.iter().enumerate() {
            if i == k {
                joined = live.snapshot();
            }
            sent.extend(live.publish(Frame::Screen(grid(&[text]))));
        }
        if k == frames.len() {
            joined = live.snapshot();
        }
        let viewer = Viewer::at(joined.0);
        let mut shown = apply(&Frame::Banner("old".into()), &joined.1).unwrap();
        for (seq, msg) in &sent {
            if viewer.accepts(*seq) {
                shown = apply(&shown, msg).unwrap();
            }
        }
        let (Frame::Screen(a), Frame::Screen(b)) = (&shown, live.current()) else {
            panic!("screens")
        };
        assert_grid_equiv(a, b);
    }
}
