//! Escape sequences through a parser onto a screen.
use shellglass::vt::attrs::{Attrs, Color};
use shellglass::vt::cell::Cell;
use shellglass::vt::perform::{Action, OscAction};
use shellglass::vt::screen::Screen;
use shellglass::vt::wrapped::WrappedScreen;

trait Callbacks {
    fn visual_bell(&mut self, _: &mut Screen) {}
    fn audible_bell(&mut self, _: &mut Screen) {}
    fn resize(&mut self, _: &mut Screen, _: (u16, u16)) {}
    fn unhandled_escape(&mut self, _: &mut Screen, _: Option<u8>, _: Option<u8>, _: u8) {}
    fn unhandled_csi(
        &mut self,
        _: &mut Screen,
        _: Option<u8>,
        _: Option<u8>,
        _: &[Vec<u16>],
        _: char,
    ) {
    }
    fn set_window_title(&mut self, _: &mut Screen, _: &[u8]) {}
}

impl Callbacks for () {}

struct Inner<CB>(WrappedScreen<CB>);

impl<CB: Callbacks> Inner<CB> {
    fn tell(&mut self, a: Action) {
        let s = &mut self.0.screen;
        let cb = &mut self.0.callbacks;
        match a {
            Action::VisualBell => cb.visual_bell(s),
            Action::AudibleBell => cb.audible_bell(s),
            Action::Resize(r, c) => cb.resize(s, (r, c)),
            Action::UnhandledEscape(i, j, b) => cb.unhandled_escape(s, i, j, b),
            _ => {}
        }
    }
}

impl<CB: Callbacks> vte::Perform for Inner<CB> {
    fn print(&mut self, c: char) {
        let a = self.0.print(c);
        self.tell(a);
    }

    fn execute(&mut self, b: u8) {
        let a = self.0.execute(b);
        self.tell(a);
    }

    fn esc_dispatch(&mut self, intermediates: &[u8], _ignore: bool, b: u8) {
        let a = self.0.esc_dispatch(intermediates, b);
        self.tell(a);
    }

    fn csi_dispatch(&mut self, params: &vte::Params, intermediates: &[u8], _ignore: bool, c: char) {
        let p: Vec<Vec<u16>> = params.iter().map(|x| x.to_vec()).collect();
        let (a, missed) = self.0.csi_dispatch(&p, intermediates, c);
        self.tell(a);
        for _ in 0..missed {
            self.0.callbacks.unhandled_csi(
                &mut self.0.screen,
                intermediates.first().copied(),
                intermediates.get(1).copied(),
                &p,
                c,
            );
        }
    }

    fn osc_dispatch(&mut self, params: &[&[u8]], _bell_terminated: bool) {
        let p: Vec<Vec<u8>> = params.iter().map(|x| x.to_vec()).collect();
        for a in self.0.osc_dispatch(&p) {
            if let OscAction::SetWindowTitle(t) = a {
                self.0.callbacks.set_window_title(&mut self.0.screen, &t);
            }
        }
    }
}

struct Terminal<CB = ()> {
    parser: vte::Parser,
    inner: Inner<CB>,
}

impl Terminal<()> {
    fn new(rows: u16, cols: u16) -> Self {
        Terminal::new_with_callbacks(rows, cols, ())
    }
}

impl Default for Terminal<()> {
    fn default() -> Self {
        Terminal::new(24, 80)
    }
}

impl<CB: Callbacks> Terminal<CB> {
    fn new_with_callbacks(rows: u16, cols: u16, callbacks: CB) -> Self {
        Terminal {
            parser: vte::Parser::new(),
            inner: Inner(WrappedScreen::new_with_callbacks(rows, cols, callbacks)),
        }
    }

    fn process(&mut self, bytes: &[u8]) {
        self.parser.advance(&mut self.inner, bytes);
    }

    fn screen(&self) -> &Screen {
        &self.inner.0.screen
    }

    fn screen_mut(&mut self) -> &mut Screen {
        &mut self.inner.0.screen
    }

    fn callbacks(&self) -> &CB {
        &self.inner.0.callbacks
    }
}


#[test]
fn attributes_formatted() {
    let mut parser = Terminal::default();
    assert_eq!(parser.screen().attributes_formatted(), b"\x1b[m");
    parser.process(b"\x1b[32mfoo\x1b[41mbar\x1b[33mbaz");
    assert_eq!(parser.screen().attributes_formatted(), b"\x1b[m\x1b[33;41m");
    parser.process(b"\x1b[1m\x1b[39m");
    assert_eq!(parser.screen().attributes_formatted(), b"\x1b[m\x1b[41;1m");
    parser.process(b"\x1b[m");
    assert_eq!(parser.screen().attributes_formatted(), b"\x1b[m");
}

// modern SGR — underline styles (4:n / 21 / 24), strikethrough
// (9/29), underline color (58/59 in all three shapes). helix and neovim emit
// 4:3 undercurl for diagnostics.
#[test]
fn modern_sgr() {
    let mut vt = Terminal::default();
    let cell = |vt: &Terminal, col: u16| {
        let c = vt.screen().cell(0, col).unwrap();
        (c.underline_style(), c.strikethrough(), c.ulcolor())
    };

    vt.process(b"\x1b[4ma\x1b[4:3mb\x1b[21mc\x1b[9md\x1b[24;29me");
    assert_eq!(cell(&vt, 0), (1, false, Color::Default));
    assert_eq!(cell(&vt, 1), (3, false, Color::Default));
    assert!(vt.screen().cell(0, 1).unwrap().underline());
    assert_eq!(cell(&vt, 2), (2, false, Color::Default));
    assert_eq!(cell(&vt, 3), (2, true, Color::Default));
    assert_eq!(cell(&vt, 4), (0, false, Color::Default));

    // 4:0 clears the underline (not the strikethrough); SGR 0 clears everything.
    vt.process(b"\x1b[9;4:5m\x1b[4:0mf\x1b[mg");
    assert_eq!(cell(&vt, 5), (0, true, Color::Default));
    assert_eq!(cell(&vt, 6), (0, false, Color::Default));

    // Underline color: all three shapes, the kitty colon form with an empty
    // colorspace id, and the 59 reset.
    vt.process(b"\x1b[4:3;58;5;196mh\x1b[58;2;1;2;3mi");
    vt.process(b"\x1b[58:2::9:8:7mj\x1b[59mk");
    assert_eq!(cell(&vt, 7), (3, false, Color::Idx(196)));
    assert_eq!(cell(&vt, 8), (3, false, Color::Rgb(1, 2, 3)));
    assert_eq!(cell(&vt, 9), (3, false, Color::Rgb(9, 8, 7)));
    assert_eq!(cell(&vt, 10), (3, false, Color::Default));
}

// the repaint path (contents_formatted) re-emits the modern SGR
// state — feeding its output to a fresh parser reproduces the same attrs.
#[test]
fn modern_sgr_formatted_roundtrip() {
    let mut vt = Terminal::default();
    vt.process(b"\x1b[4:3;9;58;2;10;20;30mx\x1b[21;59my");
    let mut vt2 = Terminal::default();
    vt2.process(&vt.screen().contents_formatted());
    for col in 0..2 {
        let (a, b) = (
            vt.screen().cell(0, col).unwrap(),
            vt2.screen().cell(0, col).unwrap(),
        );
        assert_eq!(a.underline_style(), b.underline_style(), "col {col}");
        assert_eq!(a.strikethrough(), b.strikethrough(), "col {col}");
        assert_eq!(a.ulcolor(), b.ulcolor(), "col {col}");
    }
}

// conceal (SGR 8/28) — set, reveal, SGR-0 reset, and the repaint
// path re-emitting 8 so a downstream terminal (the SSH view) hides it too.
#[test]
fn conceal() {
    let mut vt = Terminal::default();
    vt.process(b"\x1b[8ma\x1b[28mb\x1b[8mc\x1b[md");
    let concealed = |vt: &Terminal, col: u16| {
        vt.screen().cell(0, col).unwrap().concealed()
    };
    assert!(concealed(&vt, 0), "SGR 8 conceals");
    assert!(!concealed(&vt, 1), "SGR 28 reveals");
    assert!(concealed(&vt, 2), "re-conceal");
    assert!(!concealed(&vt, 3), "SGR 0 resets conceal");
    // the buffer keeps the real characters — only rendering hides them
    assert_eq!(vt.screen().contents(), "abcd");

    let mut vt2 = Terminal::default();
    vt2.process(&vt.screen().contents_formatted());
    for col in 0..4 {
        assert_eq!(
            concealed(&vt, col),
            concealed(&vt2, col),
            "formatted roundtrip, col {col}"
        );
    }
}

// blink (SGR 5/6, 25 off) — kitty renders blinking text, so the
// bit is modeled and the repaint path re-emits 5/25.
#[test]
fn blink() {
    let mut vt = Terminal::default();
    vt.process(b"\x1b[5ma\x1b[25mb\x1b[6mc\x1b[md");
    let blink = |vt: &Terminal, col: u16| {
        vt.screen().cell(0, col).unwrap().blink()
    };
    assert!(blink(&vt, 0), "SGR 5 blinks");
    assert!(!blink(&vt, 1), "SGR 25 stops");
    assert!(blink(&vt, 2), "SGR 6 rapid shares the bit");
    assert!(!blink(&vt, 3), "SGR 0 resets");

    let mut vt2 = Terminal::default();
    vt2.process(&vt.screen().contents_formatted());
    for col in 0..4 {
        assert_eq!(
            blink(&vt, col),
            blink(&vt2, col),
            "formatted roundtrip, col {col}"
        );
    }
}

#[test]
fn row_clamp() {
    let mut vt = Terminal::default();
    assert_eq!(vt.screen().cursor_position(), (0, 0));
    vt.process(b"\x1b[15d");
    assert_eq!(vt.screen().cursor_position(), (14, 0));
    vt.process(b"\x1b[150d");
    assert_eq!(vt.screen().cursor_position(), (23, 0));
}

#[test]
fn xtwinops() {
    struct Resizes;
    impl Callbacks for Resizes {
        fn resize(
            &mut self,
            screen: &mut Screen,
            (rows, cols): (u16, u16),
        ) {
            screen.set_size(rows, cols);
        }
    }

    let mut vt = Terminal::new_with_callbacks(24, 80, Resizes);
    assert_eq!(vt.screen().size(), (24, 80));
    vt.process(b"\x1b[8;24;80t");
    assert_eq!(vt.screen().size(), (24, 80));
    vt.process(b"\x1b[8t");
    assert_eq!(vt.screen().size(), (24, 80));
    vt.process(b"\x1b[8;80;24t");
    assert_eq!(vt.screen().size(), (80, 24));
    vt.process(b"\x1b[8;24t");
    assert_eq!(vt.screen().size(), (24, 24));

    let mut vt = Terminal::new_with_callbacks(24, 80, Resizes);
    assert_eq!(vt.screen().size(), (24, 80));
    vt.process(b"aaaaaaaaaaaaaaaaaaaaaaaaaaaaaaaaaaaaaaaaaaaaaaaaaaaaaaaaaaaaaaaaaaaaaaaaaaaaaaaaaaaaaaaaaa");
    assert_eq!(
        vt.screen().rows(0, 80)[0],
        "aaaaaaaaaaaaaaaaaaaaaaaaaaaaaaaaaaaaaaaaaaaaaaaaaaaaaaaaaaaaaaaaaaaaaaaaaaaaaaaa"
    );
    assert_eq!(vt.screen().rows(0, 80)[1], "aaaaaaaaaa");
    vt.process(
        b"\x1b[H\x1b[8;24;15tbbbbbbbbbbbbbbbbbbbb\x1b[8;24;80tcccccccccccccccccccc",
    );
    assert_eq!(vt.screen().rows(0, 80)[0], "bbbbbbbbbbbbbbb");
    assert_eq!(
        vt.screen().rows(0, 80)[1],
        "bbbbbcccccccccccccccccccc"
    );
}

// SCOSC/SCORC (CSI s / CSI u) — save/restore cursor position.
#[test]
fn scosc_scorc() {
    let mut vt = Terminal::default();
    vt.process(b"12345");
    assert_eq!(vt.screen().cursor_position(), (0, 5));
    vt.process(b"\x1b[s\x1b[10;20H");
    assert_eq!(vt.screen().cursor_position(), (9, 19));
    vt.process(b"\x1b[u");
    assert_eq!(vt.screen().cursor_position(), (0, 5));

    // Unlike DECSC/DECRC, SCOSC/SCORC must not save/restore attributes: text
    // written after the restore keeps the attributes in effect at restore
    // time, not the ones saved. Save with default bg, set a green bg, then
    // restore and overwrite — the overwriting cell must still be green (a
    // DECRC alias would wrongly restore the saved default-bg attrs).
    let mut vt = Terminal::default();
    vt.process(b"\x1b[31m\x1b[s\x1b[42mx\x1b[uy");
    let y = vt.screen().cell(0, 0).unwrap();
    assert_eq!(
        y.contents(),
        "y",
        "CSI u restored the cursor to the save spot"
    );
    assert_eq!(
        y.bgcolor(),
        Color::Idx(2),
        "attrs in effect (green bg) survive CSI u"
    );

    // The parameterized forms are different sequences (DECSLRM) and must not
    // touch the saved cursor.
    let mut vt = Terminal::default();
    vt.process(b"abc\x1b[s\x1b[5;10H\x1b[2s\x1b[u");
    assert_eq!(
        vt.screen().cursor_position(),
        (0, 3),
        "CSI 2 s is not SCOSC"
    );

    // The powerline-prompt shape: draw a right-
    // aligned segment (save, jump to the right edge, back up, draw, restore)
    // — the cursor must land back just after the left prompt.
    let mut vt = Terminal::new(24, 80);
    vt.process(b"$ ls\x1b[s\x1b[80C\x1b[11D\x1b[7m  master \x1b[0m\x1b[u");
    assert_eq!(vt.screen().cursor_position(), (0, 4));
}

// REP (CSI b) — repeat the preceding graphic character.
#[test]
fn rep() {
    let mut vt = Terminal::default();
    vt.process(b"ab\x1b[3b");
    assert_eq!(vt.screen().rows(0, 80)[0], "abbbb");

    // Default count is 1.
    let mut vt = Terminal::default();
    vt.process(b"x\x1b[b");
    assert_eq!(vt.screen().rows(0, 80)[0], "xx");

    // No preceding graphic character: nothing to repeat, no panic.
    let mut vt = Terminal::default();
    vt.process(b"\x1b[5b");
    assert_eq!(vt.screen().rows(0, 80)[0], "");

    // Repeats go through the print path: they wrap like typed characters.
    let mut vt = Terminal::new(24, 10);
    vt.process(b"aaaaaaaaa\x1b[3b");
    assert_eq!(vt.screen().rows(0, 10)[0], "aaaaaaaaaa");
    assert_eq!(vt.screen().rows(0, 10)[1], "aa");

    // Wide characters repeat as wide characters.
    let mut vt = Terminal::default();
    vt.process("日\x1b[2b".as_bytes());
    assert_eq!(vt.screen().rows(0, 80)[0], "日日日");
    assert_eq!(vt.screen().cursor_position(), (0, 6));

    // The repeated char survives cursor movement (data-stream semantics, as
    // in kitty/xterm) and carries the CURRENT attributes, not the original's.
    let mut vt = Terminal::default();
    vt.process(b"q\x1b[5;5H\x1b[31m\x1b[2b");
    assert_eq!(vt.screen().rows(0, 80)[4], "    qq");
    assert_eq!(
        vt.screen().cell(4, 4).unwrap().fgcolor(),
        Color::Idx(1)
    );
}

// the cursor-movement aliases.
#[test]
fn movement_aliases() {
    // HVP (CSI f) positions like CUP.
    let mut vt = Terminal::default();
    vt.process(b"\x1b[5;10f");
    assert_eq!(vt.screen().cursor_position(), (4, 9));
    // HPA (CSI `) — column absolute; VPA-style 1-based.
    vt.process(b"\x1b[3`");
    assert_eq!(vt.screen().cursor_position(), (4, 2));
    // HPR (CSI a) — column relative.
    vt.process(b"\x1b[4a");
    assert_eq!(vt.screen().cursor_position(), (4, 6));
    // VPR (CSI e) — row relative.
    vt.process(b"\x1b[2e");
    assert_eq!(vt.screen().cursor_position(), (6, 6));
}

// tab stops — HTS (ESC H) sets, TBC (CSI g) clears, HT/CHT/CBT
// navigate the table.
#[test]
fn tab_stops() {
    // Power-on stops every 8 columns, unchanged behavior.
    let mut vt = Terminal::default();
    vt.process(b"ab\tX");
    assert_eq!(vt.screen().rows(0, 80)[0], "ab      X");

    // A custom stop: HTS at column 3.
    let mut vt = Terminal::default();
    vt.process(b"\x1b[1;4H\x1bH\r\tX");
    assert_eq!(vt.screen().cursor_position(), (0, 4));
    assert_eq!(vt.screen().rows(0, 80)[0], "   X");

    // CBT (CSI Z) goes back through stops; column 0 when none remain.
    let mut vt = Terminal::default();
    vt.process(b"\x1b[1;20H\x1b[Z");
    assert_eq!(vt.screen().cursor_position(), (0, 16));
    vt.process(b"\x1b[3Z");
    assert_eq!(vt.screen().cursor_position(), (0, 0));

    // CHT (CSI I) goes forward through stops.
    let mut vt = Terminal::default();
    vt.process(b"\x1b[2I");
    assert_eq!(vt.screen().cursor_position(), (0, 16));

    // TBC 0 clears the stop under the cursor; the next tab skips past it.
    let mut vt = Terminal::default();
    vt.process(b"\x1b[1;9H\x1b[g\r\t");
    assert_eq!(vt.screen().cursor_position(), (0, 16));

    // TBC 3 clears them all: tab lands on the right margin.
    let mut vt = Terminal::default();
    vt.process(b"\x1b[3g\t");
    assert_eq!(vt.screen().cursor_position(), (0, 79));

    // Widening the screen extends the default stops into the new region.
    let mut vt = Terminal::default();
    vt.screen_mut().set_size(24, 100);
    vt.process(b"\x1b[1;85H\t");
    assert_eq!(vt.screen().cursor_position(), (0, 88));

    // RIS restores the power-on stops.
    let mut vt = Terminal::default();
    vt.process(b"\x1b[3g\x1bc\t");
    assert_eq!(vt.screen().cursor_position(), (0, 8));
}

// DECSTR (CSI ! p) — soft terminal reset.
#[test]
fn decstr() {
    let mut vt = Terminal::default();
    // Build up state: content, SGR, DECSC at a colored position, margins +
    // origin mode, hidden cursor, application cursor keys and keypad, a
    // custom tab stop, and a cursor position.
    vt.process(b"hello\x1b[31m\x1b7\x1b[5;10r\x1b[?6h\x1b[?25l\x1b[?1h\x1b=");
    vt.process(b"\x1b[1;4H\x1bH"); // custom tab stop at column 3 (origin row 5)
    vt.process(b"\x1b[2;7H"); // cursor somewhere non-default (origin-relative)
    let pos_before = vt.screen().cursor_position();

    vt.process(b"\x1b[!p");

    // Reset: modes, SGR, margins, origin mode, saved cursor.
    assert!(!vt.screen().hide_cursor(), "cursor visible again");
    assert!(!vt.screen().application_cursor(), "cursor keys normal");
    assert!(!vt.screen().application_keypad(), "keypad numeric");
    // Content and cursor position are untouched.
    assert_eq!(vt.screen().rows(0, 80)[0], "hello");
    assert_eq!(vt.screen().cursor_position(), pos_before);
    // SGR is back to normal: new text renders with default attributes.
    vt.process(b"x");
    let cell = vt.screen().cell(pos_before.0, pos_before.1).unwrap();
    assert_eq!(cell.fgcolor(), Color::Default);
    // Origin mode and margins are gone: CUP 1;1 reaches the true home (with
    // origin mode + top margin 5 it would land on row 4).
    vt.process(b"\x1b[1;1HY");
    assert_eq!(vt.screen().cell(0, 0).unwrap().contents(), "Y");
    // DECSC data is cleared: DECRC goes to home with default attributes, not
    // back to the red save-point.
    vt.process(b"\x1b[32m\x1b8z");
    assert_eq!(vt.screen().cell(0, 0).unwrap().contents(), "z");
    assert_eq!(
        vt.screen().cell(0, 0).unwrap().fgcolor(),
        Color::Default
    );
    // Tab stops survive (only RIS resets them).
    vt.process(b"\r\t");
    assert_eq!(vt.screen().cursor_position(), (0, 3));

    // The alternate screen is NOT exited by a soft reset.
    let mut vt = Terminal::default();
    vt.process(b"\x1b[?1049h\x1b[!p");
    assert!(vt.screen().alternate_screen(), "alt screen survives DECSTR");
}

// CHT/HT with the cursor in the wrap-pending state (col == cols
// after filling a row) must clamp, not panic.
#[test]
fn tab_at_wrap_pending_column() {
    let mut vt = Terminal::default();
    vt.process(&[b'x'; 80]);
    vt.process(b"\x1b[I");
    assert_eq!(vt.screen().cursor_position(), (0, 79));
    let mut vt = Terminal::default();
    vt.process(&[b'x'; 80]);
    vt.process(b"\t");
    assert_eq!(vt.screen().cursor_position(), (0, 79));
}

// DA queries and XTWINOPS reports/title-stack ops have no render
// effect (the embedding terminal answers the queries) — they must be silent
// no-ops, not unhandled; XTWINOPS ops outside the known-harmless set keep
// reporting.
#[test]
fn da_and_xtwinops_noise_is_deliberately_ignored() {
    #[derive(Default)]
    struct Rec(Vec<(Option<u8>, Vec<u16>, char)>);
    impl Callbacks for Rec {
        fn unhandled_csi(
            &mut self,
            _: &mut Screen,
            i1: Option<u8>,
            _: Option<u8>,
            params: &[Vec<u16>],
            c: char,
        ) {
            self.0.push((i1, params.iter().map(|p| p[0]).collect(), c));
        }
    }
    let mut vt = Terminal::new_with_callbacks(24, 80, Rec::default());
    vt.process(b"before\x1b[c\x1b[0c\x1b[>c");
    vt.process(b"\x1b[11t\x1b[13t\x1b[14t\x1b[16t\x1b[18t\x1b[19t\x1b[21t");
    vt.process(b"\x1b[22;0t\x1b[23;0t after");
    assert_eq!(vt.callbacks().0, vec![], "noise must not report");
    assert_eq!(vt.screen().contents(), "before after");
    // An op outside the known-harmless set still reports (9 = maximize).
    vt.process(b"\x1b[9;1t");
    assert_eq!(vt.callbacks().0, vec![(None, vec![9, 1], 't')]);
}

// DECSCUSR (CSI n SP q) cursor style — tracked 0-6, reset by
// DECSTR and RIS, out-of-range values report instead of clobbering state.
#[test]
fn decscusr() {
    let mut vt = Terminal::default();
    assert_eq!(vt.screen().cursor_style(), 0);
    vt.process(b"\x1b[5 q"); // blinking bar (vim insert mode)
    assert_eq!(vt.screen().cursor_style(), 5);
    vt.process(b"\x1b[2 q");
    assert_eq!(vt.screen().cursor_style(), 2);
    // A bare `CSI SP q` (param 0) is "default".
    vt.process(b"\x1b[ q");
    assert_eq!(vt.screen().cursor_style(), 0);
    // Out of range: state untouched (and reported via unhandled_csi).
    vt.process(b"\x1b[3 q\x1b[9 q");
    assert_eq!(vt.screen().cursor_style(), 3);
    // DECSTR resets the style (xterm's reset list includes DECSCUSR).
    vt.process(b"\x1b[6 q\x1b[!p");
    assert_eq!(vt.screen().cursor_style(), 0);
    // RIS resets too.
    vt.process(b"\x1b[6 q\x1bc");
    assert_eq!(vt.screen().cursor_style(), 0);
}

// no-op arms — keyboard/query protocol with
// zero render effect. Each must parse cleanly WITHOUT hitting unhandled_csi
// (deliberately-ignored ≠ unhandled) and without disturbing screen state.
#[test]
fn noop_arms_round4() {
    struct Panic;
    impl Callbacks for Panic {
        fn unhandled_csi(
            &mut self,
            _: &mut Screen,
            i1: Option<u8>,
            i2: Option<u8>,
            params: &[Vec<u16>],
            c: char,
        ) {
            panic!("unhandled CSI: {i1:?} {i2:?} {params:?} {c}");
        }
    }

    let mut vt = Terminal::new_with_callbacks(24, 80, Panic);
    vt.process(b"a");
    vt.process(b"\x1b[>4;2m\x1b[>4m\x1b[>m"); // XTMODKEYS (modifyOtherKeys)
    vt.process(b"\x1b[>q"); // XTVERSION
    vt.process(b"\x1b[?1004h\x1b[?1004l"); // focus-event reporting
    vt.process(b"\x1b[?2031h\x1b[?2031l"); // color-scheme notifications
    vt.process(b"\x1b[?7727h\x1b[?7727l"); // urxvt application-ESC mode
    vt.process(b"\x1b[?6n\x1b[?15n\x1b[?25n"); // private DSR (DECXCPR, printer, UDK)
                                               // sixel display/scroll modes — 80 (DECSDM), 8452 (cursor right of graphic).
    vt.process(b"\x1b[?80h\x1b[?80l");
    vt.process(b"\x1b[?8452h\x1b[?8452l");
    vt.process(b"b");
    // nothing rendered, nothing moved beyond the two printed glyphs
    assert_eq!(vt.screen().contents(), "ab");
    assert_eq!(vt.screen().cursor_position(), (0, 2));
}

// degenerate input.
#[test]
fn hardening_wide_char_on_narrow_terminal() {
    // A width-2 glyph on a 1-col terminal: `cols - width` would underflow.
    let mut vt = Terminal::new(4, 1);
    vt.process("宽".as_bytes()); // no panic, no wrap
    assert_eq!(vt.screen().size(), (4, 1));
}

#[test]
fn hardening_huge_scroll_and_insert_counts() {
    // A 16-bit CSI count must clamp, not drive 65535 alloc passes.
    let mut vt = Terminal::new(24, 80);
    vt.process(b"hello\x1b[65535L"); // insert_lines (IL)
    vt.process(b"\x1b[65535T"); // scroll_down (SD)
    vt.process(b"\x1b[65535S"); // scroll_up (SU)
    assert_eq!(vt.screen().size(), (24, 80));
}

#[test]
fn hardening_zero_size_resize() {
    // A 0-row/0-col resize (bogus CSI 8 t) must floor to 1x1, not underflow.
    let mut vt = Terminal::new(24, 80);
    vt.screen_mut().set_size(0, 0);
    let (rows, cols) = vt.screen().size();
    assert!(rows >= 1 && cols >= 1, "floored to at least 1x1");
}

#[test]
fn truecolor_colon_form_fg_and_bg() {
    // 38:2::r:g:b and 48:2::r:g:b — the colorspace-id colon form, matching 58.
    let mut vt = Terminal::new(4, 20);
    vt.process(b"\x1b[38:2::1:2:3m\x1b[48:2::9:8:7mX");
    let c = vt.screen().cell(0, 0).unwrap();
    assert_eq!(c.fgcolor(), Color::Rgb(1, 2, 3));
    assert_eq!(c.bgcolor(), Color::Rgb(9, 8, 7));
}

#[test]
fn vb() {
    struct State {
        vb: usize,
    }

    impl Callbacks for State {
        fn visual_bell(&mut self, _: &mut Screen) {
            self.vb += 1;
        }
    }

    let mut parser =
        Terminal::new_with_callbacks(24, 80, State { vb: 0 });
    assert_eq!(parser.callbacks().vb, 0);

    let screen = parser.screen().clone();
    parser.process(b"\x1bg");
    assert_eq!(parser.callbacks().vb, 1);
    assert_eq!(parser.screen().contents_diff(&screen), b"");

    let screen = parser.screen().clone();
    parser.process(b"\x1bg");
    assert_eq!(parser.callbacks().vb, 2);
    assert_eq!(parser.screen().contents_diff(&screen), b"");

    let screen = parser.screen().clone();
    parser.process(b"\x1bg\x1bg\x1bg");
    assert_eq!(parser.callbacks().vb, 5);
    assert_eq!(parser.screen().contents_diff(&screen), b"");

    let screen = parser.screen().clone();
    parser.process(b"foo");
    assert_eq!(parser.callbacks().vb, 5);
    assert_eq!(parser.screen().contents_diff(&screen), b"foo");

    let screen = parser.screen().clone();
    parser.process(b"ba\x1bgr");
    assert_eq!(parser.callbacks().vb, 6);
    assert_eq!(parser.screen().contents_diff(&screen), b"bar");
}

#[test]
fn decsc_resize() {
    let mut parser = Terminal::new(24, 80);
    parser.process(b"foo\x1b[20;70Hbar\x1b7");
    assert_eq!(parser.screen().contents(), "foo\n\n\n\n\n\n\n\n\n\n\n\n\n\n\n\n\n\n\n                                                                     bar");
    assert_eq!(parser.screen().cursor_position(), (19, 72));
    parser.process(b"\x1b[H");
    assert_eq!(parser.screen().cursor_position(), (0, 0));
    parser.screen_mut().set_size(15, 60);
    assert_eq!(parser.screen().contents(), "foo");
    assert_eq!(parser.screen().cursor_position(), (0, 0));
    parser.process(b"y\x1b8z");
    assert_eq!(parser.screen().contents(), "yoo\n\n\n\n\n\n\n\n\n\n\n\n\n\n                                                           z");
    assert_eq!(parser.screen().cursor_position(), (14, 60));
}

// a bare ST (`ESC \`) is how vte reports the terminator of an
// OSC/DCS string it already ended — pure syntax, must be silent.
#[test]
fn st_is_deliberately_ignored() {
    struct Panic;
    impl Callbacks for Panic {
        fn unhandled_escape(
            &mut self,
            _: &mut Screen,
            i1: Option<u8>,
            i2: Option<u8>,
            b: u8,
        ) {
            panic!("unhandled escape: {i1:?} {i2:?} {b:#x}");
        }
    }
    let mut parser = Terminal::new_with_callbacks(24, 80, Panic);
    parser.process(b"a\x1b]10;?\x1b\\b");
    assert_eq!(parser.screen().contents(), "ab");
}

// SCS ESC ( B / ESC ) B (designate US-ASCII) is the only charset
// this crate models — silent; ESC ( 0 (DEC line drawing) is a real gap and
// must keep reporting.
#[test]
fn scs_ascii_is_ignored_dec_graphics_reports() {
    #[derive(Default)]
    struct Rec(Vec<(Option<u8>, u8)>);
    impl Callbacks for Rec {
        fn unhandled_escape(
            &mut self,
            _: &mut Screen,
            i1: Option<u8>,
            _: Option<u8>,
            b: u8,
        ) {
            self.0.push((i1, b));
        }
    }
    let mut parser =
        Terminal::new_with_callbacks(24, 80, Rec::default());
    parser.process(b"a\x1b(B\x1b)Bb");
    assert_eq!(parser.callbacks().0, vec![]);
    assert_eq!(parser.screen().contents(), "ab");
    parser.process(b"\x1b(0");
    assert_eq!(parser.callbacks().0, vec![(Some(b'('), b'0')]);
}

// synchronized update (DEC private mode 2026) — mode bit plus
// wrapping BSU/ESU counters so a sampling consumer can see edges that opened
// and closed within one read.
#[test]
fn synchronized_update() {
    let mut vt = Terminal::default();
    assert!(!vt.screen().synchronized_update());
    assert_eq!(vt.screen().synchronized_update_starts(), 0);
    assert_eq!(vt.screen().synchronized_update_ends(), 0);

    vt.process(b"\x1b[?2026h");
    assert!(vt.screen().synchronized_update());
    assert_eq!(vt.screen().synchronized_update_starts(), 1);
    assert_eq!(vt.screen().synchronized_update_ends(), 0);

    vt.process(b"\x1b[?2026l");
    assert!(!vt.screen().synchronized_update());
    assert_eq!(vt.screen().synchronized_update_ends(), 1);

    // A full update plus the start of the next, all in one read: the mode bit
    // says "in progress" while the counters expose the completed one.
    vt.process(b"\x1b[?2026hdraw\x1b[?2026l\x1b[?2026h");
    assert!(vt.screen().synchronized_update());
    assert_eq!(vt.screen().synchronized_update_starts(), 3);
    assert_eq!(vt.screen().synchronized_update_ends(), 2);
}

// DECAWM (CSI ? 7 h/l) — with autowrap off the cursor clamps at
// the right margin and text overwrites the edge cell, like xterm; nothing
// spills onto the next line. DECSTR restores the wrap-on default.
#[test]
fn decawm_off_clamps_at_the_margin() {
    let mut vt = Terminal::new(3, 10);
    vt.process(b"\x1b[?7l0123456789ABC");
    assert_eq!(vt.screen().contents(), "012345678C");
    assert_eq!(vt.screen().cursor_position(), (0, 10));
    // A wide glyph at the margin overwrites the last two cells.
    vt.process("\u{65e5}\u{672c}".as_bytes());
    assert_eq!(vt.screen().contents(), "01234567\u{672c}");
    // Re-enabled: wrapping is back.
    vt.process(b"\x1b[2J\x1b[H\x1b[?7h0123456789xy");
    assert_eq!(vt.screen().cursor_position(), (1, 2));
    // (row 0 wrapped into row 1, so contents joins them)
    assert_eq!(vt.screen().contents(), "0123456789xy");
    // DECSTR resets autowrap to on.
    vt.process(b"\x1b[2J\x1b[H\x1b[?7l\x1b[!p0123456789Z");
    assert_eq!(vt.screen().cursor_position(), (1, 1));
    assert_eq!(vt.screen().contents(), "0123456789Z");
}

// IRM (CSI 4 h/l) — insert mode shifts the rest of the row right;
// replace mode (the default) overwrites. DECSTR resets to replace.
#[test]
fn irm_insert_shifts_replace_overwrites() {
    let mut vt = Terminal::default();
    vt.process(b"abc\r\x1b[4hXY");
    assert_eq!(vt.screen().contents(), "XYabc");
    // Back to replace: overwrite in place.
    vt.process(b"\x1b[4l\rZ");
    assert_eq!(vt.screen().contents(), "ZYabc");
    // Insert mode set again, then DECSTR → replace again.
    vt.process(b"\x1b[4h\x1b[!p\rQ");
    assert_eq!(vt.screen().contents(), "QYabc");
}

#[test]
fn the_main_screen_comes_back() {
    let mut vt = Terminal::new(4, 10);
    vt.process(b"main\x1b[31m\x1b[?1049h\x1b[32malt\x1b[3;3H");
    assert!(vt.screen().alternate_screen());
    assert_eq!(vt.screen().contents(), "alt");
    vt.process(b"\x1b[?1049l!");
    assert!(!vt.screen().alternate_screen());
    assert_eq!(vt.screen().contents(), "main!");
    assert_eq!(vt.screen().cell(0, 4).unwrap().fgcolor(), Color::Idx(1));
    // The alternate screen is empty when it is entered again.
    vt.process(b"\x1b[?1049h");
    assert_eq!(vt.screen().contents(), "");
}

#[test]
fn erasing_and_shifting_keep_wide_characters_whole() {
    let mut vt = Terminal::new(2, 6);
    vt.process("a日b\x1b[1;3H\x1b[X".as_bytes());
    // The erased half takes the other with it.
    assert_eq!(vt.screen().contents(), "a  b");
    let mut vt = Terminal::new(2, 6);
    vt.process("ab日\x1b[1;1H\x1b[3@".as_bytes());
    assert_eq!(vt.screen().contents(), "   ab", "a half past the edge is gone");
    let mut vt = Terminal::new(2, 6);
    vt.process("日bc\x1b[1;1H\x1b[P".as_bytes());
    assert_eq!(vt.screen().contents(), " bc");
}

#[test]
fn regions_scroll_alone() {
    let mut vt = Terminal::new(4, 4);
    vt.process(b"a\r\nb\r\nc\r\nd\x1b[2;3r\x1b[3;1H\n");
    assert_eq!(vt.screen().contents(), "a\nc\n\nd");
    vt.process(b"\x1b[2;1H\x1bM");
    assert_eq!(vt.screen().contents(), "a\n\nc\nd");
    vt.process(b"\x1b[L\x1b[M\x1b[2M");
    assert_eq!(vt.screen().contents(), "a\n\n\nd");
}

#[test]
fn combining_characters_join_their_base() {
    let mut vt = Terminal::new(2, 4);
    vt.process("e\u{301}x".as_bytes());
    assert_eq!(vt.screen().cell(0, 0).unwrap().contents(), "e\u{301}");
    assert_eq!(vt.screen().cursor_position(), (0, 2));
}

#[test]
fn titles_and_links_are_kept() {
    let mut vt = Terminal::default();
    vt.process(b"\x1b]0;one\x07\x1b[22t\x1b]2;two\x07");
    assert_eq!(vt.screen().title().as_slice(), b"two");
    vt.process(b"\x1b[23t");
    assert_eq!(vt.screen().title().as_slice(), b"one");
    vt.process(b"\x1b]8;;http://a;b\x07x\x1b]8;;\x07y\x1b]8;;http://a;b\x07z");
    let link = |c: u16| vt.screen().cell(0, c).unwrap().link();
    assert_eq!((link(0), link(1), link(2)), (Some(1), None, Some(1)));
    assert_eq!(vt.screen().link_target(1).unwrap().as_slice(), b"http://a;b");
    assert!(vt.screen().link_target(2).is_none());
}

#[test]
fn default_colors_are_overridden_and_reset() {
    let mut vt = Terminal::default();
    vt.process(b"\x1b]10;rgb:ff/80/0\x07\x1b]11;#123\x07");
    assert_eq!(vt.screen().modes().default_fg, Color::Rgb(255, 128, 0));
    assert_eq!(vt.screen().modes().default_bg, Color::Rgb(0x11, 0x22, 0x33));
    // A sign is no digit, and a component has four at most.
    vt.process(b"\x1b]10;rgb:+f/0/0\x07\x1b]11;rgb:12345/0/0\x07");
    assert_eq!(vt.screen().modes().default_fg, Color::Rgb(255, 128, 0));
    vt.process(b"\x1b]110\x07\x1b]111\x07");
    assert_eq!(vt.screen().modes().default_fg, Color::Default);
    assert_eq!(vt.screen().modes().default_bg, Color::Default);
}

#[test]
fn input_modes_are_written_out() {
    let mut vt = Terminal::default();
    assert_eq!(vt.screen().input_mode_formatted(), b"\x1b>\x1b[?1l\x1b[?2004l");
    vt.process(b"\x1b=\x1b[?1h\x1b[?2004h\x1b[?1002h\x1b[?1006h");
    assert_eq!(
        vt.screen().input_mode_formatted(),
        b"\x1b=\x1b[?1h\x1b[?2004h\x1b[?1002h\x1b[?1006h"
    );
    vt.process(b"\x1b[?1000l\x1b[?1002l");
    assert_eq!(vt.screen().input_mode_formatted(), b"\x1b=\x1b[?1h\x1b[?2004h\x1b[?1006h");
}

#[test]
fn a_repaint_shows_the_same_screen() {
    let mut vt = Terminal::new(4, 8);
    vt.process("a\x1b[41mb日\x1b[K\x1b[m\r\n\x1b[2;4Hx\x1b[4;1H12345678".as_bytes());
    let mut vt2 = Terminal::new(4, 8);
    vt2.process(b"other text\x1b[7m");
    vt2.process(&vt.screen().contents_formatted());
    for r in 0..4 {
        for c in 0..8 {
            let (a, b) = (vt.screen().cell(r, c).unwrap(), vt2.screen().cell(r, c).unwrap());
            assert!(a.same(b), "{r},{c}");
        }
    }
    assert_eq!(vt.screen().cursor_position(), vt2.screen().cursor_position());
    assert_eq!(vt2.screen().attributes_formatted(), vt.screen().attributes_formatted());
    // And so does a change from one to the other.
    let was = vt2.screen().clone();
    vt.process(b"\x1b[H\x1b[1mnew\x1b[3;1H\x1b[?25l");
    vt2.process(&vt.screen().contents_diff(&was));
    for r in 0..4 {
        for c in 0..8 {
            let (a, b) = (vt.screen().cell(r, c).unwrap(), vt2.screen().cell(r, c).unwrap());
            assert!(a.same(b), "{r},{c}");
        }
    }
    assert!(vt2.screen().hide_cursor());
}

#[test]
fn unknown_modes_and_attributes_are_reported() {
    #[derive(Default)]
    struct Rec(usize);
    impl Callbacks for Rec {
        fn unhandled_csi(
            &mut self,
            _: &mut Screen,
            _: Option<u8>,
            _: Option<u8>,
            _: &[Vec<u16>],
            _: char,
        ) {
            self.0 += 1;
        }
    }
    let mut vt = Terminal::new_with_callbacks(24, 80, Rec::default());
    vt.process(b"\x1b[?9999h\x1b[99m\x1b[7J\x1b[38;9;1m\x1b[5h");
    assert_eq!(vt.callbacks().0, 5);
    vt.process(b"\x1b[38;5m\x1b[38;2;1;2m");
    assert_eq!(vt.callbacks().0, 5, "a colour that is cut short is dropped");
}

#[test]
fn attributes_are_set_one_by_one() {
    let mut a = Attrs::default();
    a.set_bold();
    a.set_dim();
    assert!(a.dim() && !a.bold(), "dim takes bold away");
    a.set_normal_intensity();
    assert!(!a.dim() && !a.bold());
    a.set_underline(true);
    assert_eq!(a.underline_style(), 1);
    a.set_underline_style(5);
    a.set_italic(true);
    a.set_inverse(true);
    assert!(a.underline() && a.italic() && a.inverse() && !a.blink());
    let mut out = b"x".to_vec();
    a.write_escape_code_diff(&mut out, &Attrs::default());
    assert_eq!(out, b"x\x1b[3;4:5;7m");
    out.clear();
    Attrs::default().write_escape_code_diff(&mut out, &a);
    assert_eq!(out, b"\x1b[m");
    out.clear();
    a.write_escape_code_diff(&mut out, &a);
    assert_eq!(out, b"");
}

#[test]
fn a_cell_holds_its_text_and_a_slot() {
    let mut c: Cell<u32> = Cell::new();
    assert!(!c.has_contents());
    c.set('日', Attrs::default());
    assert!(c.is_wide());
    c.append('\u{301}');
    assert_eq!(c.contents(), "日\u{301}");
    assert_eq!(c.data(), None);
    c.set_data(Some(7));
    assert_eq!(c.data(), Some(&7));
    for _ in 0..20 {
        c.append('\u{301}');
    }
    assert!(c.contents().len() <= 22, "a cell does not grow without end");
    c.clear(Attrs::default());
    assert_eq!(c.contents(), "");
}
