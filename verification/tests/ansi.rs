//! Painting frames on a terminal.
use shellglass::ansi::{paint, push_color, strip_html};
use shellglass::model::{Color, Frame};
use shellglass::parse::grid_from_capture;
use shellglass::render::banner;

fn screen(rows: &[&str], cols: u16) -> Frame {
    let joined = rows.join("\n");
    Frame::Screen(grid_from_capture(&joined, cols, rows.len() as u16))
}

#[test]
fn sgr_maps_base_bright_256_and_rgb_colors() {
    // fg base(1)+bright(9)+256(200) and bg base(2)+256(240)+rgb.
    let cases = [
        (Color::Idx(1), false, ";31"),
        (Color::Idx(9), false, ";91"),
        (Color::Idx(200), false, ";38;5;200"),
        (Color::Idx(2), true, ";42"),
        (Color::Idx(240), true, ";48;5;240"),
        (Color::Rgb(10, 20, 30), false, ";38;2;10;20;30"),
        (Color::Rgb(1, 2, 3), true, ";48;2;1;2;3"),
        (Color::Default, false, ""),
    ];
    for (c, bg, want) in cases {
        let mut p = String::new();
        push_color(&mut p, c, bg);
        assert_eq!(p, want, "{c:?} bg={bg}");
    }
}

#[test]
fn attrs_render_and_reset_between_runs() {
    // Bold "A", then plain "B": the plain cell must re-emit a bare reset so the
    // bold doesn't bleed.
    let f = screen(&["\x1b[1mA\x1b[0mB"], 4);
    let out = paint(None, &f, (4, 1));
    assert!(out.contains("\x1b[0;1mA"), "bold set: {out:?}");
    assert!(out.contains("\x1b[0mB"), "reset before plain B: {out:?}");
}

#[test]
fn full_paint_clears_and_positions_every_row() {
    let f = screen(&["ab", "cd"], 2);
    let out = paint(None, &f, (2, 2));
    assert!(out.starts_with("\x1b[2J\x1b[H"), "clears on full: {out:?}");
    assert!(out.contains("\x1b[1;1H"), "row 0 positioned");
    assert!(out.contains("\x1b[2;1H"), "row 1 positioned");
}

#[test]
fn full_width_row_keeps_last_glyph() {
    // A row filling the exact view width must not be followed by a trailing EL —
    // that would erase the rightmost glyph parked in the deferred-wrap column.
    let f = screen(&["ABCD"], 4);
    let out = paint(None, &f, (4, 1));
    assert!(
        out.contains("ABCD\x1b[0m"),
        "last glyph kept, reset not EL: {out:?}"
    );
    assert!(
        !out.contains("D\x1b[K"),
        "no trailing EL after the last glyph: {out:?}"
    );
    assert!(
        out.contains("\x1b[1;1H\x1b[0m\x1b[K"),
        "line cleared before painting: {out:?}"
    );
}

#[test]
fn row_diff_repaints_only_changed_rows() {
    let a = screen(&["ab", "cd"], 2);
    let b = screen(&["ab", "cX"], 2);
    let out = paint(Some(&a), &b, (2, 2));
    assert!(
        !out.starts_with("\x1b[2J"),
        "no full clear on diff: {out:?}"
    );
    assert!(!out.contains("\x1b[1;1H"), "row 0 unchanged, not repainted");
    assert!(out.contains("\x1b[2;1H"), "row 1 repainted");
}

#[test]
fn resize_forces_full_repaint() {
    // Different dims ⇒ prev is unusable as a base even though kinds match.
    let a = screen(&["ab"], 2);
    let b = screen(&["abc"], 3);
    let out = paint(Some(&a), &b, (3, 1));
    assert!(out.starts_with("\x1b[2J\x1b[H"), "resize → full: {out:?}");
}

#[test]
fn wide_cells_advance_two_columns() {
    // "世" is wide (2 cols), then "x": x must land at column 3.
    let f = screen(&["世x"], 4);
    let out = paint(None, &f, (4, 1));
    assert!(out.contains("世x"), "wide glyph then x: {out:?}");
}

#[test]
fn wide_cell_at_crop_boundary_becomes_space() {
    // View is 1 col wide (2 rows so a content row survives the status line); the
    // single wide glyph can't fit → a space, no glyph.
    let f = screen(&["世"], 2);
    let out = paint(None, &f, (1, 2));
    assert!(
        !out.contains('世'),
        "wide glyph dropped at boundary: {out:?}"
    );
    assert!(out.contains("\x1b[0m "), "replaced by a space: {out:?}");
}

#[test]
fn crop_shows_top_left_with_status_line() {
    // 8-col session on a 6-col / 3-row terminal (wide enough for the status text):
    // 2 content rows + the status on row 3.
    let f = screen(&["abcdefgh", "row2here", "row3here", "row4here"], 8);
    let out = paint(None, &f, (60, 3));
    assert!(out.contains("\x1b[1;1H"), "top row painted");
    assert!(
        out.contains("\x1b[3;1H\x1b[K\x1b[7m"),
        "inverse status on bottom row: {out:?}"
    );
    assert!(
        out.contains("session 8x4 — your terminal 60x3"),
        "status text: {out:?}"
    );
}

#[test]
fn no_status_line_when_session_fits() {
    let f = screen(&["ab", "cd"], 2);
    let out = paint(None, &f, (10, 10));
    assert!(
        !out.contains("\x1b[7m"),
        "no inverse status when it fits: {out:?}"
    );
}

#[test]
fn cursor_shown_iff_visible_and_inside_crop() {
    let mut f = screen(&["abcd", "efgh", "ijkl"], 4);
    let Frame::Screen(g) = &mut f else {
        unreachable!()
    };
    // Cursor at (2,0) is below the single visible content row of a 3x2 view.
    g.cursor = Some((2, 0));
    let out = paint(None, &f, (3, 2));
    assert!(
        out.contains("\x1b[?25l") && !out.contains("\x1b[?25h"),
        "hidden below crop: {out:?}"
    );
    // Cursor at (0,1) is inside → shown at 1;2.
    let Frame::Screen(g) = &mut f else {
        unreachable!()
    };
    g.cursor = Some((0, 1));
    let out = paint(None, &f, (3, 2));
    assert!(
        out.contains("\x1b[1;2H\x1b[?25h"),
        "shown inside crop: {out:?}"
    );
}

#[test]
fn banner_paint_strips_html_and_unescapes() {
    let html = banner("a < b & c");
    let out = paint(None, &Frame::Banner(html), (80, 24));
    assert!(
        out.contains("shellglass: a < b & c"),
        "tags stripped, entities decoded: {out:?}"
    );
    assert!(!out.contains("<div"), "no stray markup: {out:?}");
    assert!(out.contains("\x1b[0;31m"), "painted red: {out:?}");
}

#[test]
fn an_unchanged_screen_repaints_no_row() {
    let a = screen(&["ab", "cd"], 2);
    let out = paint(Some(&a), &a, (2, 2));
    assert!(!out.contains("\x1b[1;1H\x1b[0m"), "{out:?}");
    assert!(!out.contains('a') && !out.contains('c'), "{out:?}");
}

#[test]
fn html_is_stripped_to_its_text() {
    assert_eq!(strip_html("<b>a &lt; b</b> &amp;&gt;"), "a < b &>");
    assert_eq!(strip_html("plain"), "plain");
    assert_eq!(strip_html(""), "");
}
