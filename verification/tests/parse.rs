//! From a terminal's screen to styled cells.
use shellglass::model::Color;
use shellglass::parse::{grid_from_capture, grid_from_screen, seed_parser};
use shellglass::vt::parser::{Event, OutputParser};
use shellglass::vt::wrapped::WrappedScreen;

#[test]
fn attrs_and_colors() {
    // Bold red "A", then a truecolor "B", then plain "C".
    let cap = "\x1b[1;31mA\x1b[0m\x1b[38;2;10;20;30mB\x1b[0mC";
    let g = grid_from_capture(cap, 10, 1);
    let row = &g.rows[0];
    assert_eq!(row[0].text, "A");
    assert!(row[0].bold);
    assert_eq!(row[0].fg, Color::Idx(1));
    assert_eq!(row[1].fg, Color::Rgb(10, 20, 30));
    assert!(!row[1].bold);
    assert_eq!(row[2].text, "C");
    assert_eq!(row[2].fg, Color::Default);
}

#[test]
fn wide_char_collapses_continuation() {
    // A CJK ideograph occupies two columns; we keep one wide cell.
    let g = grid_from_capture("世x", 10, 1);
    let row = &g.rows[0];
    assert_eq!(row[0].text, "世");
    assert!(row[0].wide);
    assert_eq!(row[1].text, "x");
    assert!(!row[1].wide);
}

#[test]
fn no_top_line_scroll() {
    // Two lines must both survive.
    let g = grid_from_capture("top\nbot", 10, 2);
    assert_eq!(g.rows[0][0].text, "t");
    assert_eq!(g.rows[1][0].text, "b");
}

#[test]
fn blanks_show_a_space_and_rows_cover_the_width() {
    let g = grid_from_capture("a世", 6, 2);
    assert_eq!(g.cols, 6);
    assert_eq!(g.rows.len(), 2);
    for row in &g.rows {
        let n: u16 = row.iter().map(|c| if c.wide { 2 } else { 1 }).sum();
        assert_eq!(n, 6);
    }
    assert_eq!(g.rows[1][0].text, " ");
    assert_eq!(g.cursor, Some((0, 3)));
    assert!(g.images.is_empty());
}

#[test]
fn styles_of_underlines_and_cursors_carry_over() {
    let g = grid_from_capture("\x1b[4:3;58;5;9;9;7;2;3mx\x1b[4 q", 4, 1);
    let c = &g.rows[0][0];
    assert_eq!((c.underline, c.strike, c.inverse), (3, true, true));
    assert_eq!((c.dim, c.italic, c.bold), (true, true, false));
    assert_eq!(c.ulcolor, Color::Idx(9));
    assert_eq!(g.cursor_style, 4);
}

#[test]
fn a_hidden_cursor_is_not_shown() {
    assert_eq!(grid_from_capture("x\x1b[?25l", 4, 1).cursor, None);
}

#[test]
fn captured_lines_stand_and_the_cursor_is_put_back() {
    let (mut parser, mut wrapped) = seed_parser("one\n\x1b[1mtwo\n\n", 5, 3, (2, 1));
    let g = grid_from_screen(&wrapped.screen);
    assert_eq!((g.rows[0][0].text.as_str(), g.rows[1][0].text.as_str()), ("o", "t"));
    assert!(g.rows[1][0].bold);
    assert_eq!(g.cursor, Some((1, 2)));
    parser.process(&mut wrapped, b"X");
    assert_eq!(grid_from_screen(&wrapped.screen).rows[1][2].text, "X");
}

#[test]
fn a_sequence_may_be_split_between_reads() {
    let bytes = "\x1b[31m\u{4e16}\x1b]2;title\x1b\\\x1b(0q\r\n".as_bytes();
    let mut whole = WrappedScreen::new(2, 10);
    OutputParser::new().process(&mut whole, bytes);
    for k in 0..bytes.len() {
        let mut parser = OutputParser::new();
        let mut split = WrappedScreen::new(2, 10);
        parser.process(&mut split, &bytes[..k]);
        parser.process(&mut split, &bytes[k..]);
        assert_eq!(
            grid_from_screen(&split.screen),
            grid_from_screen(&whole.screen),
            "split at {k}"
        );
    }
    assert_eq!(grid_from_screen(&whole.screen).rows[0][0].fg, Color::Idx(1));
}

#[test]
fn events_are_played_in_order() {
    let mut w = WrappedScreen::new(2, 4);
    w.play_all(&vec![
        Event::Print('a'),
        Event::Csi { params: vec![vec![4, 3]], intermediates: vec![], action: 'm' },
        Event::Print('b'),
        Event::Execute(b'\r'),
        Event::Execute(b'\n'),
        Event::Esc { intermediates: vec![], byte: b'7' },
        Event::Print('c'),
        Event::Esc { intermediates: vec![], byte: b'8' },
        Event::Osc { fields: vec![b"2".to_vec(), b"t".to_vec()] },
    ]);
    let g = grid_from_screen(&w.screen);
    assert_eq!((g.rows[0][0].underline, g.rows[0][1].underline), (0, 3));
    assert_eq!(g.cursor, Some((1, 0)));
}
