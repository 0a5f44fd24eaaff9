//! A command in a terminal of its own.
use shellglass::model::{Frame, ImagePlacement};
use shellglass::pty::{
    cell_size, default_geom, frame_due, frame_from, image_cells, mark_for,
    term_geom, Notifier, Placed, INPUT_MODES_OFF,
};
use shellglass::vt::parser::OutputParser;
use shellglass::vt::wrapped::WrappedScreen;

struct Terminal {
    parser: OutputParser,
    wrapped: WrappedScreen,
}

impl Terminal {
    fn new(rows: u16, cols: u16) -> Terminal {
        Terminal { parser: OutputParser::new(), wrapped: WrappedScreen::new(rows, cols) }
    }

    fn process(&mut self, bytes: &[u8]) {
        self.parser.process(&mut self.wrapped, bytes);
    }
}

fn placed(mark: char) -> Placed {
    Placed {
        mark,
        img: ImagePlacement {
            row: 0,
            col: 0,
            cols: Some(2),
            rows: Some(1),
            mime: "image/png".into(),
            data: std::sync::Arc::new(String::new()),
        },
    }
}

/// The mark rides the screen's own scrolling: it moves up as the screen
/// scrolls and disappears (evicting the image) once it passes the top.
#[test]
fn sentinel_tracks_scroll_and_evicts() {
    let mut parser = Terminal::new(3, 10); // 3 rows
    let mark = '\u{E000}';
    parser.process(b"\r\n\r\n"); // cursor to the last row
    parser.process(mark.encode_utf8(&mut [0u8; 4]).as_bytes());
    let mut imgs = vec![placed(mark)];

    // Placed on the last row; the sentinel cell is scrubbed out of the wire grid.
    let Frame::Screen(g) = &frame_from(&parser.wrapped.screen, &mut imgs) else {
        panic!("screen")
    };
    assert_eq!((g.images[0].row, g.images[0].col), (2, 0));
    assert!(g.rows[2].first().is_none_or(|c| c.text.is_empty()));

    // One scroll (newline on the last row) lifts the sentinel to row 1.
    parser.process(b"\r\nx");
    let Frame::Screen(g) = &frame_from(&parser.wrapped.screen, &mut imgs) else {
        panic!("screen")
    };
    assert_eq!(g.images[0].row, 1);

    // Two more scrolls push it off the top → the image is evicted.
    parser.process(b"\r\n\r\n");
    let Frame::Screen(g) = &frame_from(&parser.wrapped.screen, &mut imgs) else {
        panic!("screen")
    };
    assert!(g.images.is_empty());
}

#[test]
fn sizes_in_pixels_are_reported_or_assumed() {
    let g = term_geom(80, 24, 0, 0).unwrap();
    assert_eq!((g.cols, g.rows, g.px_w, g.px_h), (80, 24, 640, 384));
    assert_eq!(cell_size(&g), (8, 16));
    let g = term_geom(80, 24, 800, 480).unwrap();
    assert_eq!(cell_size(&g), (10, 20));
    assert!(term_geom(0, 24, 0, 0).is_none());
    let d = default_geom();
    assert_eq!((d.cols, d.rows), (80, 24));
}

#[test]
fn an_image_covers_whole_cells() {
    assert_eq!(image_cells(None, Some((17, 33)), (8, 16)), Some((3, 3)));
    assert_eq!(image_cells(Some((2, 1)), Some((17, 33)), (8, 16)), Some((2, 1)));
    assert_eq!(image_cells(None, None, (8, 16)), None);
}

#[test]
fn marks_are_private_characters() {
    assert_eq!(mark_for(0), '\u{E000}');
    assert_eq!(mark_for(1), '\u{E001}');
    assert_ne!(mark_for(5), mark_for(6));
}

#[test]
fn cells_tell_where_an_image_is() {
    let mut t = Terminal::new(3, 10);
    t.process(b"\x1b[2;4H");
    let screen = &mut t.wrapped.screen;
    // The second row of an image whose first row is above.
    screen.place_data(3, 20, 'm', 4);
    assert_eq!(screen.cell(1, 9).unwrap().data().unwrap().col, 6);
    assert!(screen.cell(1, 2).unwrap().data().is_none());
    let mut imgs = vec![placed('m'), placed('n')];
    let Frame::Screen(g) = frame_from(screen, &mut imgs) else {
        panic!("screen")
    };
    assert_eq!(imgs.len(), 1, "nothing is left of the other");
    assert_eq!((g.images[0].row, g.images[0].col), (-3, 3));
    // One cell that was shifted says the same of its row.
    t.process(b"\r\x1b[2P");
    let Frame::Screen(g) = frame_from(&t.wrapped.screen, &mut imgs) else {
        panic!("screen")
    };
    assert_eq!((g.images[0].row, g.images[0].col), (-3, 1));
    t.process(b"\x1b[2K");
    let Frame::Screen(g) = frame_from(&t.wrapped.screen, &mut imgs) else {
        panic!("screen")
    };
    assert!(g.images.is_empty() && imgs.is_empty());
}

#[test]
fn frames_come_at_a_pace() {
    assert!(!frame_due(false, false, 1000));
    assert!(!frame_due(true, false, 32));
    assert!(frame_due(true, false, 33));
    assert!(!frame_due(true, true, 999));
    assert!(frame_due(true, true, 1000));
}

#[test]
fn an_outage_is_told_once() {
    let mut n = Notifier::new();
    assert!(n.is_connected());
    assert!(n.hub_down("gone").is_some());
    assert!(n.hub_down("gone").is_none());
    assert!(!n.is_connected());
    assert!(n.hub_up());
    assert!(!n.hub_up());
    assert!(INPUT_MODES_OFF.starts_with("\x1b>"));
}
