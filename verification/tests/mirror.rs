//! A command's output on its way to the terminal and to the screen.
use base64::engine::general_purpose::STANDARD as B64;
use base64::Engine;
use shellglass::images::{encode_png, Image};
use shellglass::mirror::{Effect, Mirror, Protocols};
use shellglass::model::{Frame, Grid};
use shellglass::probe::{answered, protocols, QUERY};

struct Terminal {
    mirror: Mirror,
    written: Vec<u8>,
    answered: Vec<u8>,
}

impl Terminal {
    fn new(rows: u16, cols: u16) -> Terminal {
        Terminal::showing(rows, cols, Protocols { kitty: true, iterm: true, sixel: true })
    }

    fn showing(rows: u16, cols: u16, shows: Protocols) -> Terminal {
        Terminal {
            mirror: Mirror::new(rows, cols, (8, 16), shows),
            written: Vec::new(),
            answered: Vec::new(),
        }
    }

    fn data(&mut self, bytes: &[u8]) {
        for e in self.mirror.output(bytes) {
            match e {
                Effect::Terminal(b) => self.written.extend(b),
                Effect::Answer(b) => self.answered.extend(b),
                e => panic!("not for others: {e:?}"),
            }
        }
    }

    fn grid(&mut self) -> Grid {
        match self.mirror.frame(33) {
            Some(Frame::Screen(g)) => g,
            _ => panic!("a screen"),
        }
    }
}

fn png(w: u32, h: u32) -> Vec<u8> {
    encode_png(w, h, 4, &vec![0; (w * h * 4) as usize], true).unwrap()
}

#[test]
fn text_goes_to_the_terminal_and_to_the_screen() {
    let mut t = Terminal::new(3, 10);
    assert!(!t.mirror.is_dirty());
    assert_eq!(t.mirror.frame(1000), None, "nothing changed");
    t.data(b"hi\x1b[1mx");
    assert_eq!(t.written, b"hi\x1b[1mx");
    assert!(t.mirror.is_dirty());
    assert_eq!(t.mirror.frame(32), None, "not due yet");
    let g = t.grid();
    assert_eq!((g.rows[0][0].text.as_str(), g.rows[0][2].bold), ("h", true));
    assert!(!t.mirror.is_dirty());
}

#[test]
fn an_image_is_placed_at_the_cursor_and_follows_it() {
    let mut t = Terminal::new(3, 10);
    let seq = format!("\x1b]1337;File=inline=1:{}\x07", B64.encode(png(17, 33)));
    t.data(b"ab");
    t.data(seq.as_bytes());
    assert_eq!(t.written, [b"ab", seq.as_bytes()].concat(), "the terminal draws it itself");
    // 17x33 pixels cover 3x3 cells of 8x16; the cursor is left in the last row.
    assert_eq!(t.mirror.wrapped.screen.cursor_position(), (2, 0));
    let g = t.grid();
    assert_eq!(g.images.len(), 1);
    let i = &g.images[0];
    assert_eq!((i.row, i.col, i.cols, i.rows), (0, 2, Some(3), Some(3)));
    assert_eq!(B64.decode(i.data.as_str()).unwrap(), png(17, 33));
    assert_eq!(g.rows[0][2].text, "", "the mark is not shown");
    // It scrolls with the text, is cut off at the top, and is gone with its last row.
    t.data(b"\r\n");
    let g = t.grid();
    assert_eq!((g.images[0].row, g.images[0].col), (-1, 2));
    t.data(b"\r\n");
    assert_eq!(t.grid().images[0].row, -2);
    t.data(b"\r\n");
    assert!(t.grid().images.is_empty());
}

#[test]
fn two_images_have_two_marks() {
    let mut t = Terminal::new(3, 10);
    let img = Image { mime: "image/png".into(), bytes: png(1, 1), cells: Some((1, 1)), px: None };
    t.mirror.place(&img);
    t.mirror.show(b"\n");
    t.mirror.place(&img);
    let text = |r| t.mirror.wrapped.screen.cell(r, 0).unwrap().contents().to_string();
    assert_eq!((text(0), text(1)), ("\u{E000}".into(), "\u{E001}".into()));
    t.data(b"");
    let rows: Vec<i16> = t.grid().images.iter().map(|i| i.row).collect();
    assert_eq!(rows, [0, 1]);
}

#[test]
fn an_image_goes_when_all_of_it_is_overwritten() {
    let img = Image { mime: "image/png".into(), bytes: png(1, 1), cells: Some((2, 2)), px: None };
    let mut t = Terminal::new(4, 10);
    t.data("\u{4e16}".as_bytes());
    t.mirror.place(&img);
    t.data(b"\x1b[1;1Habcd");
    let g = t.grid();
    assert_eq!((g.images[0].row, g.images[0].col), (0, 2), "its second row is left");
    t.data(b"\x1b[2;3Hx");
    assert_eq!(t.grid().images[0].col, 2, "one cell is left");
    t.data(b"y");
    assert!(t.grid().images.is_empty());
    t.mirror.place(&img);
    t.data(b"\x1b[2J");
    assert!(t.grid().images.is_empty(), "cleared");
}

#[test]
fn an_image_taller_than_the_screen_is_cut_off() {
    let img = Image { mime: "image/png".into(), bytes: png(1, 1), cells: Some((3, 9)), px: None };
    let mut t = Terminal::new(4, 10);
    t.data(b"\r\n");
    t.mirror.place(&img);
    t.data(b"");
    let g = t.grid();
    assert_eq!((g.images[0].row, g.images[0].rows), (-5, Some(9)));
    assert_eq!(g.cursor, Some((3, 0)));
}

#[test]
fn an_image_of_unknown_size_has_one_cell() {
    let img = Image { mime: "image/png".into(), bytes: vec![1], cells: None, px: None };
    let mut t = Terminal::new(2, 4);
    t.data("\u{4e16}".as_bytes());
    t.mirror.place(&img);
    t.data(b"");
    let g = t.grid();
    assert_eq!((g.images[0].row, g.images[0].col, g.images[0].cols), (0, 2, None));
    t.data(b"\x1b[1;3Hx");
    assert!(t.grid().images.is_empty());
}

#[test]
fn a_raw_image_is_placed_as_a_file() {
    let mut t = Terminal::new(3, 10);
    let s = format!("\x1b_Ga=T,f=32,t=d,s=2,v=2;{}\x1b\\", B64.encode([0u8; 16]));
    t.data(s.as_bytes());
    let g = t.grid();
    assert_eq!((g.images.len(), g.images[0].mime.as_str()), (1, "image/png"));
}

#[test]
fn a_refused_transfer_is_answered() {
    let mut t = Terminal::new(3, 10);
    t.data(format!("\x1b_Gi=31,a=q,t=f;{}\x1b\\", B64.encode("/x")).as_bytes());
    assert!(t.answered.starts_with(b"\x1b_Gi=31;E"));
    assert!(t.written.is_empty());
}

#[test]
fn an_outage_pauses_the_terminal_and_not_the_screen() {
    let mut t = Terminal::new(3, 10);
    t.data(b"one");
    let notice = t.mirror.hub_down("hub gone").unwrap();
    assert!(notice.contains("shellglass: hub gone"), "{notice:?}");
    assert_eq!(t.mirror.hub_down("again"), None);
    t.written.clear();
    t.data(b" two");
    assert!(t.written.is_empty());
    let paint = String::from_utf8(t.mirror.hub_up().unwrap()).unwrap();
    assert!(paint.starts_with("\x1b[2J\x1b[H"), "{paint:?}");
    assert!(paint.contains("one two"), "{paint:?}");
    assert!(paint.ends_with("\x1b>\x1b[?1l\x1b[?2004l"), "{paint:?}");
    assert_eq!(t.mirror.hub_up(), None);
    t.data(b"!");
    assert_eq!(t.written, b"!");
}

#[test]
fn another_size_is_a_change() {
    let mut t = Terminal::new(3, 10);
    t.mirror.resize(5, 20);
    assert!(t.mirror.is_dirty());
    let g = t.grid();
    assert_eq!((g.cols, g.rows.len()), (20, 5));
}

#[test]
fn a_frame_waits_for_the_end_of_an_update() {
    let mut t = Terminal::new(3, 10);
    t.data(b"\x1b[?2026hhalf");
    assert_eq!(t.mirror.frame(33), None);
    assert!(t.mirror.is_dirty());
    t.data(b" done\x1b[?2026l");
    assert!(t.mirror.frame(33).is_some());
    t.data(b"\x1b[?2026hstuck");
    assert!(t.mirror.frame(1000).is_some(), "an update that does not end is shown");
}

#[test]
fn images_that_the_terminal_does_not_show_stay_in_the_text() {
    let none = Protocols { kitty: false, iterm: false, sixel: false };
    let mut t = Terminal::showing(3, 10, none);
    let seq = format!("\x1b]1337;File=inline=1:{}\x07", B64.encode(png(1, 1)));
    t.data(seq.as_bytes());
    assert_eq!(t.written, seq.as_bytes());
    assert!(t.grid().images.is_empty());
}

#[test]
fn a_terminal_shows_what_it_says() {
    let all = protocols(b"\x1b_Gi=1;OK\x1b\\\x1b[?62;4;22c", "WezTerm");
    assert_eq!(all, Protocols { kitty: true, iterm: true, sixel: true });
    let none = Protocols { kitty: false, iterm: false, sixel: false };
    assert_eq!(protocols(b"", ""), none);
    assert_eq!(protocols(b"\x1b_Gi=1;ENOTSUP\x1b\\\x1b[?64;14;42c", "xterm"), none);
    assert_eq!(protocols(b"\x1b[?4", ""), none, "an answer that is cut short names nothing");
    assert!(protocols(b"\x1b[?4c", "").sixel);
    assert!(answered(b"\x1b[?4c") && !answered(b"\x1b[?4"));
    assert!(QUERY.ends_with("\x1b[c"));
}
