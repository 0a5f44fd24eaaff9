//! The lines of a multiplexer in control mode.
use shellglass::live::{classify, handle_line, strip_eol, unescape, Event, Step};
use shellglass::tmux::{parse_listing, parse_pane_line, parse_size, split_words, window_of};

#[test]
fn unescape_octal_and_literals() {
    // `\033` -> ESC, literal text passes through, `\\` (\134) -> backslash.
    assert_eq!(unescape(b"\\033[1mA\\134B"), b"\x1b[1mA\\B");
    // Raw UTF-8 bytes (e.g. from a wide glyph) pass through untouched.
    assert_eq!(unescape("é".as_bytes()), "é".as_bytes());
}

#[test]
fn classify_output_splits_pane_and_data() {
    match classify(b"%output %3 hello\\012") {
        Event::Output { pane, data } => {
            assert_eq!(pane, b"%3");
            assert_eq!(data, b"hello\\012");
        }
        _ => panic!("expected output"),
    }
}

#[test]
fn classify_structural_and_exit() {
    assert!(matches!(classify(b"%layout-change @0 abc"), Event::Resync));
    assert!(matches!(
        classify(b"%window-pane-changed @0 %1"),
        Event::Resync
    ));
    assert!(matches!(classify(b"%exit"), Event::Exit));
    assert!(matches!(classify(b"%begin 123 0 1"), Event::Ignore));
}

#[test]
fn escapes_that_are_not_octal_stand() {
    assert_eq!(unescape(b"\\9"), b"\\9");
    assert_eq!(unescape(b"\\01"), b"\\01");
    assert_eq!(unescape(b"a\\"), b"a\\");
    assert_eq!(unescape(b"\\015\\012"), b"\r\n");
}

#[test]
fn ends_of_line_are_stripped() {
    let mut line = b"%exit\r\n".to_vec();
    strip_eol(&mut line);
    assert_eq!(line, b"%exit");
}

#[test]
fn output_goes_to_its_pane() {
    let panes = vec!["%1".to_string(), "%3".to_string()];
    match handle_line(&panes, b"%output %3 a\\012") {
        Step::Feed { pane, bytes } => {
            assert_eq!(pane, 1);
            assert_eq!(bytes, b"a\n");
        }
        _ => panic!("expected data"),
    }
    assert!(!matches!(handle_line(&panes, b"%output %9 a"), Step::Feed { .. }));
}

#[test]
fn sizes_and_words_are_read() {
    assert_eq!(parse_size("80x24"), Some((80, 24)));
    assert_eq!(parse_size("80"), None);
    assert_eq!(split_words(&"  a b\tc ".chars().collect::<Vec<char>>()).len(), 3);
    assert!(parse_pane_line("").is_none());
}

#[test]
fn a_list_of_panes_is_read() {
    let panes = parse_listing("%1 0 0 80 24 1 3 4\r\n\n%2 80 0 40 24 0 0 0").unwrap();
    assert_eq!(panes.len(), 2);
    let (g, cursor) = &panes[0];
    assert_eq!((g.id.as_str(), g.width, g.height, g.active), ("%1", 80, 24, true));
    assert_eq!(*cursor, (3, 4));
    assert_eq!((panes[1].0.left, panes[1].0.active), (80, false));
    assert_eq!(parse_listing("%1 0 0 80 24 1 3 4\nbad line\n").unwrap_err(), "bad line");
    assert!(parse_listing("").unwrap().is_empty());
}

#[test]
fn a_window_is_put_together() {
    let listing = "%1 0 0 80 24 1 3 4\n%2 80 0 40 24 0 0 0\n";
    let texts = || vec!["one".to_string(), "two".to_string()];
    let w = window_of("120x24\n", listing, texts()).unwrap();
    assert_eq!((w.width, w.height, w.panes.len()), (120, 24, 2));
    assert_eq!((w.panes[1].geom.id.as_str(), w.panes[1].capture.as_str()), ("%2", "two"));
    assert_eq!(w.panes[0].cursor, (3, 4));
    let why = |size: &str, list: &str, v| window_of(size, list, v).err().unwrap();
    assert_eq!(why("x", listing, texts()), "unexpected window size from tmux: \"x\"");
    assert_eq!(why("8x2", "bad", texts()), "unexpected list-panes line: \"bad\"");
    assert_eq!(why("8x2", "\n", vec![]), "no panes found");
    assert_eq!(why("8x2", listing, vec![]), "not one capture for each pane");
}
