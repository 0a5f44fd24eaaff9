//! The screen of a terminal: what actions do to it.
use crate::text::{copy_bytes, same_bytes};
use crate::vt::attrs::{no_attrs, Attrs, Color};
use crate::vt::cell::{Cell, Tag};
use crate::vt::grid::{columns, empty_grid, least, most, undrawn, Grid, GridState};
use crate::vt::perform::{param_views, Action, OscAction, OscView};
use crate::vt::row::Row;
use crate::vt::sgr::{apply_sgr, sgr, single};
use vstd::prelude::*;

verus! {

/// Which mouse events a program asks for.
#[derive(Debug, Clone, Copy, PartialEq, Eq, Structural)]
pub enum MouseProtocolMode {
    Off,
    Press,
    PressRelease,
    ButtonMotion,
    AnyMotion,
}

/// How mouse events are written.
#[derive(Debug, Clone, Copy, PartialEq, Eq, Structural)]
pub enum MouseProtocolEncoding {
    Default,
    Utf8,
    Sgr,
}

/// The modes of a screen and other state of a fixed size.
#[derive(Debug, Clone, Copy, PartialEq, Eq, Structural)]
pub struct Modes {
    /// The alternate screen is shown.
    pub alternate: bool,
    pub attrs: Attrs,
    pub saved_attrs: Attrs,
    pub application_keypad: bool,
    pub application_cursor: bool,
    pub hide_cursor: bool,
    pub bracketed_paste: bool,
    /// A character past the edge goes to the next row.
    pub autowrap: bool,
    /// A character makes room for itself.
    pub insert: bool,
    pub synchronized_update: bool,
    /// How many synchronized updates were begun, and how many ended.
    pub starts: u32,
    pub ends: u32,
    pub mouse: MouseProtocolMode,
    pub encoding: MouseProtocolEncoding,
    /// The cursor's shape, 0 to 6.
    pub cursor_style: u8,
    /// The default colours, where they are overridden.
    pub default_fg: Color,
    pub default_bg: Color,
    /// The last character that took a cell.
    pub last: Option<char>,
    /// The place that was saved without attributes.
    pub mark_row: u16,
    pub mark_col: u16,
}

/// The modes of a fresh screen.
pub open spec fn fresh_modes() -> Modes {
    Modes {
        alternate: false,
        attrs: no_attrs(),
        saved_attrs: no_attrs(),
        application_keypad: false,
        application_cursor: false,
        hide_cursor: false,
        bracketed_paste: false,
        autowrap: true,
        insert: false,
        synchronized_update: false,
        starts: 0,
        ends: 0,
        mouse: MouseProtocolMode::Off,
        encoding: MouseProtocolEncoding::Default,
        cursor_style: 0,
        default_fg: Color::Default,
        default_bg: Color::Default,
        last: None,
        mark_row: 0,
        mark_col: 0,
    }
}

fn new_modes() -> (r: Modes)
    ensures
        r == fresh_modes(),
{
    Modes {
        alternate: false,
        attrs: Attrs::default(),
        saved_attrs: Attrs::default(),
        application_keypad: false,
        application_cursor: false,
        hide_cursor: false,
        bracketed_paste: false,
        autowrap: true,
        insert: false,
        synchronized_update: false,
        starts: 0,
        ends: 0,
        mouse: MouseProtocolMode::Off,
        encoding: MouseProtocolEncoding::Default,
        cursor_style: 0,
        default_fg: Color::Default,
        default_bg: Color::Default,
        last: None,
        mark_row: 0,
        mark_col: 0,
    }
}

/// A terminal's screen: two grids of which one is shown, modes, tab stops, titles and links.
#[derive(Clone)]
pub struct Screen {
    grid: Grid,
    other: Grid,
    modes: Modes,
    tabs: Vec<bool>,
    title: Vec<u8>,
    titles: Vec<Vec<u8>>,
    links: Vec<Vec<u8>>,
}

/// The model of [`Screen`].
#[verifier::ext_equal]
pub ghost struct ScreenState {
    /// The grid that is shown.
    pub grid: GridState,
    /// The one that is not.
    pub other: GridState,
    pub modes: Modes,
    /// Whether there is a tab stop, column by column.
    pub tabs: Seq<bool>,
    pub title: Seq<u8>,
    /// The titles that were saved, the latest last.
    pub titles: Seq<Seq<u8>>,
    /// The targets of hyperlinks; the first has the number one.
    pub links: Seq<Seq<u8>>,
}

/// The models of byte strings.
pub open spec fn bytes_views(s: Seq<Vec<u8>>) -> Seq<Seq<u8>> {
    Seq::new(s.len(), |i: int| s[i]@)
}

/// The tab stops of a fresh screen: one in every eighth column.
pub open spec fn fresh_tabs(n: int) -> Seq<bool> {
    Seq::new(n as nat, |i: int| i % 8 == 0)
}

/// A fresh screen.
pub open spec fn fresh_screen(rows: int, cols: int) -> ScreenState {
    ScreenState {
        grid: empty_grid(rows, cols),
        other: empty_grid(rows, cols),
        modes: fresh_modes(),
        tabs: fresh_tabs(cols),
        title: Seq::empty(),
        titles: Seq::empty(),
        links: Seq::empty(),
    }
}

/// The first tab stop from column `i` on; the last column where there is none.
pub open spec fn stop_from(tabs: Seq<bool>, i: int) -> int
    decreases tabs.len() - i,
{
    if !(0 <= i < tabs.len() - 1) {
        tabs.len() - 1
    } else if tabs[i] {
        i
    } else {
        stop_from(tabs, i + 1)
    }
}

/// The last tab stop before column `i`; the first column where there is none.
pub open spec fn stop_before(tabs: Seq<bool>, i: int) -> int
    decreases i,
{
    if i <= 0 {
        0
    } else if i <= tabs.len() && tabs[i - 1] {
        i - 1
    } else {
        stop_before(tabs, i - 1)
    }
}

/// The column after `n` tab stops to the right.
pub open spec fn tabbed(tabs: Seq<bool>, c: int, n: nat) -> int
    decreases n,
{
    if n == 0 {
        c
    } else {
        tabbed(tabs, stop_from(tabs, c + 1), (n - 1) as nat)
    }
}

/// The column after `n` tab stops to the left.
pub open spec fn back_tabbed(tabs: Seq<bool>, c: int, n: nat) -> int
    decreases n,
{
    if n == 0 {
        c
    } else {
        back_tabbed(tabs, stop_before(tabs, c), (n - 1) as nat)
    }
}

/// Whether a private mode is understood and has no effect: reports of focus and of the colour
/// scheme, the application's escape key, and how sixel images are placed.
pub open spec fn idle_mode(n: u16) -> bool {
    n == 1004 || n == 2031 || n == 7727 || n == 80 || n == 8452
}

/// The modes after a private mode that is a flag is set or reset; none where it is not known.
pub open spec fn flag_moded(m: Modes, n: u16, on: bool) -> Option<Modes> {
    if n == 1 {
        Some(Modes { application_cursor: on, ..m })
    } else if n == 7 {
        Some(Modes { autowrap: on, ..m })
    } else if n == 25 {
        Some(Modes { hide_cursor: !on, ..m })
    } else if n == 2004 {
        Some(Modes { bracketed_paste: on, ..m })
    } else if n == 2026 {
        Some(sync_moded(m, on))
    } else if idle_mode(n) {
        Some(m)
    } else if n == 9 {
        Some(mouse_moded(m, MouseProtocolMode::Press, on))
    } else if n == 1000 {
        Some(mouse_moded(m, MouseProtocolMode::PressRelease, on))
    } else if n == 1002 {
        Some(mouse_moded(m, MouseProtocolMode::ButtonMotion, on))
    } else if n == 1003 {
        Some(mouse_moded(m, MouseProtocolMode::AnyMotion, on))
    } else if n == 1005 {
        Some(encoding_moded(m, MouseProtocolEncoding::Utf8, on))
    } else if n == 1006 {
        Some(encoding_moded(m, MouseProtocolEncoding::Sgr, on))
    } else {
        None
    }
}

/// A synchronized update begun or ended, and counted.
pub open spec fn sync_moded(m: Modes, on: bool) -> Modes {
    if on {
        Modes { synchronized_update: true, starts: counted(m.starts), ..m }
    } else {
        Modes { synchronized_update: false, ends: counted(m.ends), ..m }
    }
}

/// A mouse mode set, or reset where it is the one that is set.
pub open spec fn mouse_moded(m: Modes, k: MouseProtocolMode, on: bool) -> Modes {
    Modes {
        mouse: if on {
            k
        } else if m.mouse == k {
            MouseProtocolMode::Off
        } else {
            m.mouse
        },
        ..m
    }
}

/// A mouse encoding set, or reset where it is the one that is set.
pub open spec fn encoding_moded(m: Modes, k: MouseProtocolEncoding, on: bool) -> Modes {
    Modes {
        encoding: if on {
            k
        } else if m.encoding == k {
            MouseProtocolEncoding::Default
        } else {
            m.encoding
        },
        ..m
    }
}

/// The number of a link: its place among the others, which is a new one where it is not
/// there and there are numbers left.
pub open spec fn link_number(links: Seq<Seq<u8>>, uri: Seq<u8>, i: int) -> int
    decreases links.len() - i,
{
    if !(0 <= i < links.len()) {
        i + 1
    } else if links[i] == uri {
        i + 1
    } else {
        link_number(links, uri, i + 1)
    }
}

impl ScreenState {
    /// What holds of every screen: its two grids have one size, and there is a mark for each
    /// column that tells whether it is a tab stop.
    pub open spec fn ok(self) -> bool {
        &&& self.grid.ok()
        &&& self.other.ok()
        &&& self.grid.rows.len() == self.other.rows.len()
        &&& self.grid.ncols == self.other.ncols
        &&& self.tabs.len() == self.grid.ncols
    }

    /// Another grid.
    pub open spec fn on(self, g: GridState) -> ScreenState {
        ScreenState { grid: g, ..self }
    }

    /// Other modes.
    pub open spec fn with(self, modes: Modes) -> ScreenState {
        ScreenState { modes, ..self }
    }

    /// A character printed.
    pub open spec fn texted(self, c: char) -> ScreenState {
        ScreenState {
            grid: self.grid.drawn(c, self.modes.attrs, self.modes.autowrap, self.modes.insert),
            modes: Modes {
                last: if undrawn(c) || columns(c) == 0 {
                    self.modes.last
                } else {
                    Some(c)
                },
                ..self.modes
            },
            ..self
        }
    }

    /// A character printed `n` times.
    pub open spec fn repeated(self, c: char, n: nat) -> ScreenState
        decreases n,
    {
        if n == 0 {
            self
        } else {
            self.texted(c).repeated(c, (n - 1) as nat)
        }
    }

    /// The cursor and the attributes saved.
    pub open spec fn decsc(self) -> ScreenState {
        ScreenState {
            grid: self.grid.saved(),
            modes: Modes { saved_attrs: self.modes.attrs, ..self.modes },
            ..self
        }
    }

    /// The cursor and the attributes as they were saved.
    pub open spec fn decrc(self) -> ScreenState {
        ScreenState {
            grid: self.grid.restored(),
            modes: Modes { attrs: self.modes.saved_attrs, ..self.modes },
            ..self
        }
    }

    /// The alternate screen shown, or the main one.
    pub open spec fn shown(self, alternate: bool) -> ScreenState {
        if self.modes.alternate == alternate {
            self
        } else {
            ScreenState {
                grid: self.other,
                other: self.grid,
                modes: Modes { alternate, ..self.modes },
                ..self
            }
        }
    }

    /// The cursor saved, and the alternate screen shown and empty.
    pub open spec fn entered(self) -> ScreenState {
        let s = self.decsc().shown(true);
        s.on(empty_grid(s.grid.rows.len() as int, s.grid.ncols))
    }

    /// A soft reset: the contents, the cursor's place, the tab stops and the screen that is
    /// shown stay.
    pub open spec fn decstr(self) -> ScreenState {
        ScreenState {
            grid: self.grid.soft_reset(),
            modes: Modes {
                attrs: no_attrs(),
                saved_attrs: no_attrs(),
                application_keypad: false,
                application_cursor: false,
                hide_cursor: false,
                autowrap: true,
                insert: false,
                cursor_style: 0,
                ..self.modes
            },
            ..self
        }
    }

    /// A mode set or reset; none where it is not known.
    pub open spec fn moded(self, n: Option<u16>, on: bool) -> Option<ScreenState> {
        if n == Some(4u16) {
            Some(self.with(Modes { insert: on, ..self.modes }))
        } else {
            None
        }
    }

    /// A private mode set or reset; none where it is not known.
    pub open spec fn private_moded(self, n: Option<u16>, on: bool) -> Option<ScreenState> {
        match n {
            Some(n) => if n == 6 {
                Some(self.on(self.grid.with_origin(on)))
            } else if n == 47 {
                Some(self.shown(on))
            } else if n == 1049 {
                if on {
                    Some(self.entered())
                } else {
                    Some(self.shown(false).decrc())
                }
            } else {
                match flag_moded(self.modes, n, on) {
                    Some(m) => Some(self.with(m)),
                    None => None,
                }
            },
            None => None,
        }
    }

    /// The modes that the parameters from `i` on name set or reset, and how many of them are
    /// not known.
    pub open spec fn all_moded(self, p: Seq<Seq<u16>>, i: int, private: bool, on: bool) -> (
        ScreenState,
        int,
    )
        decreases p.len() - i,
    {
        if !(0 <= i < p.len()) {
            (self, 0)
        } else {
            let next = if private {
                self.private_moded(single(p, i), on)
            } else {
                self.moded(single(p, i), on)
            };
            match next {
                Some(s) => s.all_moded(p, i + 1, private, on),
                None => {
                    let rest = self.all_moded(p, i + 1, private, on);
                    (rest.0, rest.1 + 1)
                },
            }
        }
    }

    /// The column of a tab stop at the cursor.
    pub open spec fn tab_col(self) -> int {
        least(self.grid.col, self.grid.ncols - 1)
    }

    /// The screen after an action with its parameters, and how often the sequence is to be
    /// reported as not understood.
    pub open spec fn applied(self, a: Action, p: Seq<Seq<u16>>) -> (ScreenState, int) {
        let g = self.grid;
        let m = self.modes;
        match a {
            Action::Text(c) => (self.texted(c), 0),
            Action::Bs => (self.on(g.left(1)), 0),
            Action::Tab => (self.on(g.to_col(tabbed(self.tabs, g.col, 1))), 0),
            Action::Cht(n) => (self.on(g.to_col(tabbed(self.tabs, g.col, n as nat))), 0),
            Action::Cbt(n) => (self.on(g.to_col(back_tabbed(self.tabs, g.col, n as nat))), 0),
            Action::Lf | Action::Vt | Action::Ff => (self.on(g.line_feed()), 0),
            Action::Cr => (self.on(g.to_col(0)), 0),
            Action::Decsc => (self.decsc(), 0),
            Action::Decrc => (self.decrc(), 0),
            Action::Deckpam => (self.with(Modes { application_keypad: true, ..m }), 0),
            Action::Deckpnm => (self.with(Modes { application_keypad: false, ..m }), 0),
            Action::Hts => (
                ScreenState { tabs: self.tabs.update(self.tab_col(), true), ..self },
                0,
            ),
            Action::Ri => (self.on(g.reverse_feed()), 0),
            Action::Ris => (fresh_screen(g.rows.len() as int, g.ncols), 0),
            Action::Ich(n) => (self.on(g.cells_inserted(n as int)), 0),
            Action::Cuu(n) => (self.on(g.up(n as int)), 0),
            Action::Cud(n) => (self.on(g.down(n as int)), 0),
            Action::Cuf(n) => (self.on(g.right(n as int)), 0),
            Action::Cub(n) => (self.on(g.left(n as int)), 0),
            Action::Cnl(n) => (self.on(g.to_col(0).down(n as int)), 0),
            Action::Cpl(n) => (self.on(g.to_col(0).up(n as int)), 0),
            Action::Cha(n) => (self.on(g.to_col(most(n - 1, 0))), 0),
            Action::Vpa(n) => (self.on(g.to_row(most(n - 1, 0))), 0),
            Action::Cup(r, c) => (self.on(g.to(most(r - 1, 0), most(c - 1, 0))), 0),
            Action::Ed(n) | Action::Decsed(n) => if n <= 2 {
                (self.on(g.screen_erased(n as int, m.attrs)), 0)
            } else {
                (self, 1)
            },
            Action::El(n) | Action::Decsel(n) => if n <= 2 {
                (self.on(g.line_erased(n as int, m.attrs)), 0)
            } else {
                (self, 1)
            },
            Action::Il(n) => (self.on(g.lines_inserted(n as int)), 0),
            Action::Dl(n) => (self.on(g.lines_deleted(n as int)), 0),
            Action::Dch(n) => (self.on(g.cells_deleted(n as int)), 0),
            Action::Su(n) => (self.on(g.scrolled_up(n as int)), 0),
            Action::Sd(n) => (self.on(g.scrolled_down(n as int)), 0),
            Action::Ech(n) => (self.on(g.cells_erased(n as int, m.attrs)), 0),
            Action::Rep(n) => match m.last {
                Some(c) => (self.repeated(c, n as nat), 0),
                None => (self, 0),
            },
            Action::Tbc(n) => if n == 0 {
                (ScreenState { tabs: self.tabs.update(self.tab_col(), false), ..self }, 0)
            } else if n == 3 {
                (ScreenState { tabs: Seq::new(self.tabs.len(), |i: int| false), ..self }, 0)
            } else {
                (self, 0)
            },
            Action::Sm => self.all_moded(p, 0, false, true),
            Action::Rm => self.all_moded(p, 0, false, false),
            Action::Decset => self.all_moded(p, 0, true, true),
            Action::Decrst => self.all_moded(p, 0, true, false),
            Action::Sgr => {
                let (attrs, missed) = sgr(m.attrs, p);
                (self.with(Modes { attrs, ..m }), missed)
            },
            Action::Decstbm(t, b) => (self.on(g.with_region(most(t - 1, 0), most(b - 1, 0))), 0),
            Action::Scosc => (
                self.with(Modes { mark_row: g.row as u16, mark_col: g.col as u16, ..m }),
                0,
            ),
            Action::Scorc => (self.on(g.at(m.mark_row as int, m.mark_col as int)), 0),
            Action::TitlePush => (ScreenState { titles: self.titles.push(self.title), ..self }, 0),
            Action::TitlePop => if self.titles.len() > 0 {
                (
                    ScreenState {
                        title: self.titles.last(),
                        titles: self.titles.drop_last(),
                        ..self
                    },
                    0,
                )
            } else {
                (self, 0)
            },
            Action::Decscusr(n) => (self.with(Modes { cursor_style: n, ..m }), 0),
            Action::Decstr => (self.decstr(), 0),
            Action::UnhandledCsi(_, _, _) => (self, 1),
            Action::Ignore
            | Action::AudibleBell
            | Action::VisualBell
            | Action::Resize(_, _)
            | Action::UnhandledChar(_)
            | Action::UnhandledControl(_)
            | Action::UnhandledEscape(_, _, _) => (self, 0),
        }
    }

    /// The screen after one thing that an OSC sequence asks for.
    pub open spec fn commanded(self, a: OscView) -> ScreenState {
        let m = self.modes;
        match a {
            OscView::SetTitle(t) => ScreenState { title: t, ..self },
            OscView::SetDefaultFg(c) => self.with(Modes { default_fg: rgb_or_default(c), ..m }),
            OscView::SetDefaultBg(c) => self.with(Modes { default_bg: rgb_or_default(c), ..m }),
            OscView::LinkOpen(uri) => {
                let n = link_number(self.links, uri, 0);
                if n > u32::MAX {
                    self
                } else {
                    ScreenState {
                        modes: Modes {
                            attrs: Attrs { link: Some(n as u32), ..m.attrs },
                            ..m
                        },
                        links: if n > self.links.len() {
                            self.links.push(uri)
                        } else {
                            self.links
                        },
                        ..self
                    }
                }
            },
            OscView::LinkClose => self.with(
                Modes { attrs: Attrs { link: None, ..m.attrs }, ..m },
            ),
            _ => self,
        }
    }

    /// The screen in another size; at least one row and one column are left.
    pub open spec fn sized(self, rows: int, cols: int) -> ScreenState {
        let r = most(rows, 1);
        let c = most(cols, 1);
        ScreenState {
            grid: self.grid.sized(r, c),
            other: self.other.sized(r, c),
            tabs: Seq::new(
                c as nat,
                |i: int|
                    if i < self.tabs.len() {
                        self.tabs[i]
                    } else {
                        i % 8 == 0
                    },
            ),
            ..self
        }
    }
}

/// One more; after the last number comes zero.
pub open spec fn counted(n: u32) -> u32 {
    if n == u32::MAX {
        0
    } else {
        (n + 1) as u32
    }
}

/// A default colour that is overridden, or not.
pub open spec fn rgb_or_default(c: Option<(u8, u8, u8)>) -> Color {
    match c {
        Some((r, g, b)) => Color::Rgb(r, g, b),
        None => Color::Default,
    }
}

impl View for Screen {
    type V = ScreenState;

    closed spec fn view(&self) -> ScreenState {
        ScreenState {
            grid: self.grid@,
            other: self.other@,
            modes: self.modes,
            tabs: self.tabs@,
            title: self.title@,
            titles: bytes_views(self.titles@),
            links: bytes_views(self.links@),
        }
    }
}

fn count(n: u32) -> (r: u32)
    ensures
        r == counted(n),
{
    if n == u32::MAX {
        0
    } else {
        n + 1
    }
}

fn color_or_default(c: Option<(u8, u8, u8)>) -> (r: Color)
    ensures
        r == rgb_or_default(c),
{
    match c {
        Some((r, g, b)) => Color::Rgb(r, g, b),
        None => Color::Default,
    }
}

fn less_one(n: u16) -> (r: u16)
    ensures
        r == most(n - 1, 0),
{
    if n > 0 {
        n - 1
    } else {
        0
    }
}

fn at_least_one(n: u16) -> (r: u16)
    ensures
        r == most(n as int, 1),
        r >= 1,
{
    if n > 1 {
        n
    } else {
        1
    }
}

fn extend_tabs(tabs: &mut Vec<bool>, n: u16)
    ensures
        final(tabs)@ == Seq::new(
            n as nat,
            |i: int|
                if i < old(tabs)@.len() {
                    old(tabs)@[i]
                } else {
                    i % 8 == 0
                },
        ),
{
    let ghost was = tabs@;
    tabs.truncate(n as usize);
    let ghost m = tabs@.len();
    while tabs.len() < n as usize
        invariant
            m <= tabs@.len() <= n,
            m <= was.len(),
            m < was.len() ==> m == n,
            forall|i: int|
                0 <= i < tabs@.len() ==> #[trigger] tabs@[i] == (if i < was.len() {
                    was[i]
                } else {
                    i % 8 == 0
                }),
        decreases n - tabs@.len(),
    {
        let i: usize = tabs.len();
        tabs.push(i % 8 == 0);
    }
    assert(tabs@ =~= Seq::new(
        n as nat,
        |i: int|
            if i < was.len() {
                was[i]
            } else {
                i % 8 == 0
            },
    ));
}

fn next_stop(tabs: &Vec<bool>, c: u16) -> (r: u16)
    requires
        1 <= tabs@.len() <= 0xffff,
    ensures
        r == stop_from(tabs@, c + 1),
        r < tabs@.len(),
{
    let n: u16 = tabs.len() as u16;
    if c >= n - 1 {
        return n - 1;
    }
    let mut i: u16 = c + 1;
    while i < n - 1 && !tabs[i as usize]
        invariant
            c + 1 <= i <= n - 1,
            n == tabs@.len(),
            stop_from(tabs@, i as int) == stop_from(tabs@, c + 1),
        decreases n - i,
    {
        i += 1;
    }
    i
}

fn previous_stop(tabs: &Vec<bool>, c: u16) -> (r: u16)
    requires
        c <= tabs@.len(),
    ensures
        r == stop_before(tabs@, c as int),
        r <= c,
{
    let mut i: u16 = c;
    while i > 0 && !tabs[(i - 1) as usize]
        invariant
            i <= c <= tabs@.len(),
            stop_before(tabs@, i as int) == stop_before(tabs@, c as int),
        decreases i,
    {
        i -= 1;
    }
    less_one(i)
}

fn tab_forward(tabs: &Vec<bool>, c: u16, n: u16) -> (r: u16)
    requires
        1 <= tabs@.len() <= 0xffff,
        c <= tabs@.len(),
    ensures
        r == tabbed(tabs@, c as int, n as nat),
        r <= tabs@.len(),
{
    let mut col: u16 = c;
    let mut k: u16 = n;
    while k > 0
        invariant
            1 <= tabs@.len() <= 0xffff,
            col <= tabs@.len(),
            tabbed(tabs@, col as int, k as nat) == tabbed(tabs@, c as int, n as nat),
        decreases k,
    {
        col = next_stop(tabs, col);
        k -= 1;
    }
    col
}

fn tab_back(tabs: &Vec<bool>, c: u16, n: u16) -> (r: u16)
    requires
        c <= tabs@.len(),
    ensures
        r == back_tabbed(tabs@, c as int, n as nat),
        r <= c,
{
    let mut col: u16 = c;
    let mut k: u16 = n;
    while k > 0
        invariant
            col <= c <= tabs@.len(),
            back_tabbed(tabs@, col as int, k as nat) == back_tabbed(tabs@, c as int, n as nat),
        decreases k,
    {
        col = previous_stop(tabs, col);
        k -= 1;
    }
    col
}

fn set_mouse(m: Modes, k: MouseProtocolMode, on: bool) -> (r: Modes)
    ensures
        r == mouse_moded(m, k, on),
{
    let mut r = m;
    if on {
        r.mouse = k;
    } else if m.mouse == k {
        r.mouse = MouseProtocolMode::Off;
    }
    r
}

fn set_encoding(m: Modes, k: MouseProtocolEncoding, on: bool) -> (r: Modes)
    ensures
        r == encoding_moded(m, k, on),
{
    let mut r = m;
    if on {
        r.encoding = k;
    } else if m.encoding == k {
        r.encoding = MouseProtocolEncoding::Default;
    }
    r
}

fn set_sync(m: Modes, on: bool) -> (r: Modes)
    ensures
        r == sync_moded(m, on),
{
    if on {
        Modes { synchronized_update: true, starts: count(m.starts), ..m }
    } else {
        Modes { synchronized_update: false, ends: count(m.ends), ..m }
    }
}

fn set_flag_mode(m: Modes, n: u16, on: bool) -> (r: Option<Modes>)
    ensures
        r == flag_moded(m, n, on),
{
    match n {
        1 => Some(Modes { application_cursor: on, ..m }),
        7 => Some(Modes { autowrap: on, ..m }),
        25 => Some(Modes { hide_cursor: !on, ..m }),
        2004 => Some(Modes { bracketed_paste: on, ..m }),
        2026 => Some(set_sync(m, on)),
        1004 | 2031 | 7727 | 80 | 8452 => Some(m),
        9 => Some(set_mouse(m, MouseProtocolMode::Press, on)),
        1000 => Some(set_mouse(m, MouseProtocolMode::PressRelease, on)),
        1002 => Some(set_mouse(m, MouseProtocolMode::ButtonMotion, on)),
        1003 => Some(set_mouse(m, MouseProtocolMode::AnyMotion, on)),
        1005 => Some(set_encoding(m, MouseProtocolEncoding::Utf8, on)),
        1006 => Some(set_encoding(m, MouseProtocolEncoding::Sgr, on)),
        _ => None,
    }
}

impl Screen {
    /// What holds of every screen.
    pub open spec fn wf(&self) -> bool {
        self@.ok()
    }

    /// A fresh screen of at least one row and one column.
    pub fn new(rows: u16, cols: u16) -> (r: Screen)
        ensures
            r.wf(),
            r@ == fresh_screen(most(rows as int, 1), most(cols as int, 1)),
    {
        let n: u16 = at_least_one(rows);
        let c: u16 = at_least_one(cols);
        let mut tabs: Vec<bool> = Vec::new();
        extend_tabs(&mut tabs, c);
        let r = Screen {
            grid: Grid::new(n, c),
            other: Grid::new(n, c),
            modes: new_modes(),
            tabs,
            title: Vec::new(),
            titles: Vec::new(),
            links: Vec::new(),
        };
        assert(r@ =~= fresh_screen(n as int, c as int));
        r
    }

    /// The number of rows and of columns.
    pub fn size(&self) -> (r: (u16, u16))
        requires
            self.wf(),
        ensures
            r.0 == self@.grid.rows.len(),
            r.1 == self@.grid.ncols,
    {
        (self.grid.nrows(), self.grid.ncols())
    }

    /// Another size; at least one row and one column are left.
    pub fn set_size(&mut self, rows: u16, cols: u16)
        requires
            old(self).wf(),
        ensures
            final(self).wf(),
            final(self)@ == old(self)@.sized(rows as int, cols as int),
    {
        let n: u16 = at_least_one(rows);
        let c: u16 = at_least_one(cols);
        self.grid.set_size(n, c);
        self.other.set_size(n, c);
        extend_tabs(&mut self.tabs, c);
        assert(self@ =~= old(self)@.sized(rows as int, cols as int));
    }

    /// The cursor's row and column; one past the last where the next character wraps.
    pub fn cursor_position(&self) -> (r: (u16, u16))
        ensures
            r.0 == self@.grid.row,
            r.1 == self@.grid.col,
    {
        self.grid.pos()
    }

    /// Tag `n` cells of the cursor's row from `col` on as those of one row of an image. Their
    /// text stays: an image is drawn over it.
    pub fn place_data(&mut self, col: u16, n: u16, mark: char, row: u16)
        requires
            old(self).wf(),
        ensures
            final(self).wf(),
            final(self)@ == old(self)@.on(
                old(self)@.grid.stamped(col as int, n as int, mark, row),
            ),
    {
        self.grid.stamp(col, n, mark, row);
        assert(self@ =~= old(self)@.on(old(self)@.grid.stamped(col as int, n as int, mark, row)));
    }

    /// The cell in a place of the screen.
    pub fn cell(&self, row: u16, col: u16) -> (r: Option<&Cell<Tag>>)
        requires
            self.wf(),
        ensures
            r is Some <==> row < self@.grid.rows.len() && col < self@.grid.ncols,
            r matches Some(c) ==> c@ == self@.grid.rows[row as int].cells[col as int],
    {
        match self.grid.get(row) {
            Some(r) => {
                assert(self@.grid.rows[row as int].cells.len() == self@.grid.ncols);
                r.cell(col)
            },
            None => None,
        }
    }

    /// A row.
    pub fn row(&self, row: u16) -> (r: Option<&Row>)
        ensures
            r is Some <==> row < self@.grid.rows.len(),
            r matches Some(x) ==> x@ == self@.grid.rows[row as int],
    {
        self.grid.get(row)
    }

    /// Whether a row goes on in the next one.
    pub fn row_wrapped(&self, row: u16) -> (r: bool)
        ensures
            r == (row < self@.grid.rows.len() && self@.grid.rows[row as int].wrapped),
    {
        match self.grid.get(row) {
            Some(r) => r.is_wrapped(),
            None => false,
        }
    }

    /// The modes.
    pub fn modes(&self) -> (r: Modes)
        ensures
            r == self@.modes,
    {
        self.modes
    }

    pub fn hide_cursor(&self) -> (r: bool)
        ensures
            r == self@.modes.hide_cursor,
    {
        self.modes.hide_cursor
    }

    pub fn application_cursor(&self) -> (r: bool)
        ensures
            r == self@.modes.application_cursor,
    {
        self.modes.application_cursor
    }

    pub fn application_keypad(&self) -> (r: bool)
        ensures
            r == self@.modes.application_keypad,
    {
        self.modes.application_keypad
    }

    pub fn alternate_screen(&self) -> (r: bool)
        ensures
            r == self@.modes.alternate,
    {
        self.modes.alternate
    }

    pub fn synchronized_update(&self) -> (r: bool)
        ensures
            r == self@.modes.synchronized_update,
    {
        self.modes.synchronized_update
    }

    pub fn synchronized_update_starts(&self) -> (r: u32)
        ensures
            r == self@.modes.starts,
    {
        self.modes.starts
    }

    pub fn synchronized_update_ends(&self) -> (r: u32)
        ensures
            r == self@.modes.ends,
    {
        self.modes.ends
    }

    pub fn cursor_style(&self) -> (r: u8)
        ensures
            r == self@.modes.cursor_style,
    {
        self.modes.cursor_style
    }

    /// The title, as it was sent.
    pub fn title(&self) -> (r: &Vec<u8>)
        ensures
            r@ == self@.title,
    {
        &self.title
    }

    /// The target of a link.
    pub fn link_target(&self, n: u32) -> (r: Option<&Vec<u8>>)
        ensures
            r is Some <==> 1 <= n <= self@.links.len(),
            r matches Some(t) ==> t@ == self@.links[n - 1],
    {
        if n >= 1 && n as usize <= self.links.len() {
            Some(&self.links[n as usize - 1])
        } else {
            None
        }
    }

    /// Print a character.
    pub fn text(&mut self, c: char)
        requires
            old(self).wf(),
        ensures
            final(self).wf(),
            final(self)@ == old(self)@.texted(c),
            final(self)@.grid.rows.len() == old(self)@.grid.rows.len(),
            final(self)@.grid.ncols == old(self)@.grid.ncols,
    {
        self.grid.draw(c, self.modes.attrs, self.modes.autowrap, self.modes.insert);
        if crate::vt::grid::takes_cell(c) {
            self.modes.last = Some(c);
        }
        assert(self@ =~= old(self)@.texted(c));
    }

    fn rep(&mut self, c: char, n: u16)
        requires
            old(self).wf(),
        ensures
            final(self).wf(),
            final(self)@ == old(self)@.repeated(c, n as nat),
    {
        let ghost want = self@.repeated(c, n as nat);
        let mut k: u16 = n;
        while k > 0
            invariant
                self.wf(),
                self@.repeated(c, k as nat) == want,
            decreases k,
        {
            self.text(c);
            k -= 1;
        }
    }

    fn decsc(&mut self)
        requires
            old(self).wf(),
        ensures
            final(self).wf(),
            final(self)@ == old(self)@.decsc(),
    {
        self.grid.save();
        self.modes.saved_attrs = self.modes.attrs;
        assert(self@ =~= old(self)@.decsc());
    }

    fn decrc(&mut self)
        requires
            old(self).wf(),
        ensures
            final(self).wf(),
            final(self)@ == old(self)@.decrc(),
    {
        self.grid.restore();
        self.modes.attrs = self.modes.saved_attrs;
        assert(self@ =~= old(self)@.decrc());
    }

    fn show(&mut self, alternate: bool)
        requires
            old(self).wf(),
        ensures
            final(self).wf(),
            final(self)@ == old(self)@.shown(alternate),
    {
        if self.modes.alternate != alternate {
            core::mem::swap(&mut self.grid, &mut self.other);
            self.modes.alternate = alternate;
        }
        assert(self@ =~= old(self)@.shown(alternate));
    }

    fn enter(&mut self)
        requires
            old(self).wf(),
        ensures
            final(self).wf(),
            final(self)@ == old(self)@.entered(),
    {
        self.decsc();
        self.show(true);
        self.grid = Grid::new(self.grid.nrows(), self.grid.ncols());
        assert(self@ =~= old(self)@.entered());
    }

    fn leave(&mut self)
        requires
            old(self).wf(),
        ensures
            final(self).wf(),
            final(self)@ == old(self)@.shown(false).decrc(),
    {
        self.show(false);
        self.decrc();
    }

    fn decstr(&mut self)
        requires
            old(self).wf(),
        ensures
            final(self).wf(),
            final(self)@ == old(self)@.decstr(),
    {
        self.grid.reset_margins();
        self.modes.attrs = Attrs::default();
        self.modes.saved_attrs = Attrs::default();
        self.modes.application_keypad = false;
        self.modes.application_cursor = false;
        self.modes.hide_cursor = false;
        self.modes.autowrap = true;
        self.modes.insert = false;
        self.modes.cursor_style = 0;
        assert(self@ =~= old(self)@.decstr());
    }

    fn set_mode(&mut self, n: Option<u16>, on: bool) -> (r: bool)
        requires
            old(self).wf(),
        ensures
            final(self).wf(),
            r == (old(self)@.moded(n, on) is Some),
            final(self)@ == (if r {
                old(self)@.moded(n, on)->0
            } else {
                old(self)@
            }),
    {
        if n == Some(4u16) {
            self.modes.insert = on;
            assert(self@ =~= old(self)@.moded(n, on)->0);
            true
        } else {
            false
        }
    }

    fn set_private_mode(&mut self, n: Option<u16>, on: bool) -> (r: bool)
        requires
            old(self).wf(),
        ensures
            final(self).wf(),
            r == (old(self)@.private_moded(n, on) is Some),
            final(self)@ == (if r {
                old(self)@.private_moded(n, on)->0
            } else {
                old(self)@
            }),
    {
        let n: u16 = match n {
            Some(n) => n,
            None => {
                return false;
            },
        };
        if n == 6 {
            self.grid.set_origin(on);
            assert(self@ =~= old(self)@.on(old(self)@.grid.with_origin(on)));
            true
        } else if n == 47 {
            self.show(on);
            true
        } else if n == 1049 {
            if on {
                self.enter();
            } else {
                self.leave();
            }
            true
        } else {
            match set_flag_mode(self.modes, n, on) {
                Some(m) => {
                    self.modes = m;
                    assert(self@ =~= old(self)@.with(m));
                    true
                },
                None => false,
            }
        }
    }

    fn set_modes(&mut self, p: &Vec<Vec<u16>>, private: bool, on: bool) -> (r: usize)
        requires
            old(self).wf(),
        ensures
            final(self).wf(),
            (final(self)@, r as int) == old(self)@.all_moded(param_views(p@), 0, private, on),
    {
        let ghost all = param_views(p@);
        let ghost want = self@.all_moded(all, 0, private, on);
        let mut missed: usize = 0;
        let mut i: usize = 0;
        while i < p.len()
            invariant
                i <= p@.len(),
                missed <= i,
                self.wf(),
                all == param_views(p@),
                self@.all_moded(all, i as int, private, on).0 == want.0,
                missed + self@.all_moded(all, i as int, private, on).1 == want.1,
            decreases p@.len() - i,
        {
            assert(all[i as int] == p@[i as int]@);
            let n: Option<u16> = if p[i].len() == 1 {
                Some(p[i][0])
            } else {
                None
            };
            assert(n == single(all, i as int));
            let known = if private {
                self.set_private_mode(n, on)
            } else {
                self.set_mode(n, on)
            };
            if !known {
                missed += 1;
            }
            i += 1;
        }
        missed
    }

    fn set_tab(&mut self, on: bool)
        requires
            old(self).wf(),
        ensures
            final(self).wf(),
            final(self)@ == (ScreenState {
                tabs: old(self)@.tabs.update(old(self)@.tab_col(), on),
                ..old(self)@
            }),
    {
        let (_, c) = self.grid.pos();
        let n: u16 = self.grid.ncols();
        let i: u16 = if c < n {
            c
        } else {
            n - 1
        };
        self.tabs.set(i as usize, on);
        assert(self@ =~= (ScreenState {
            tabs: old(self)@.tabs.update(old(self)@.tab_col(), on),
            ..old(self)@
        }));
    }

    fn clear_tabs(&mut self)
        requires
            old(self).wf(),
        ensures
            final(self).wf(),
            final(self)@ == (ScreenState {
                tabs: Seq::new(old(self)@.tabs.len(), |i: int| false),
                ..old(self)@
            }),
    {
        let n: usize = self.tabs.len();
        let mut tabs: Vec<bool> = Vec::new();
        while tabs.len() < n
            invariant
                tabs@.len() <= n,
                forall|i: int| 0 <= i < tabs@.len() ==> !(#[trigger] tabs@[i]),
            decreases n - tabs@.len(),
        {
            tabs.push(false);
        }
        self.tabs = tabs;
        assert(self@ =~= (ScreenState {
            tabs: Seq::new(old(self)@.tabs.len(), |i: int| false),
            ..old(self)@
        }));
    }

    fn title_push(&mut self)
        requires
            old(self).wf(),
        ensures
            final(self).wf(),
            final(self)@ == (ScreenState {
                titles: old(self)@.titles.push(old(self)@.title),
                ..old(self)@
            }),
    {
        let t = copy_bytes(self.title.as_slice());
        self.titles.push(t);
        assert(self@.titles =~= old(self)@.titles.push(old(self)@.title));
    }

    fn title_pop(&mut self)
        requires
            old(self).wf(),
        ensures
            final(self).wf(),
            (final(self)@, 0int) == old(self)@.applied(Action::TitlePop, Seq::empty()),
    {
        if let Some(t) = self.titles.pop() {
            self.title = t;
            assert(self@.titles =~= old(self)@.titles.drop_last());
        }
    }

    fn move_to_col(&mut self, c: u16)
        requires
            old(self).wf(),
        ensures
            final(self).wf(),
            final(self)@ == old(self)@.on(old(self)@.grid.to_col(c as int)),
    {
        self.grid.set_col(c);
    }

    fn tab(&mut self, n: u16)
        requires
            old(self).wf(),
        ensures
            final(self).wf(),
            final(self)@ == old(self)@.on(
                old(self)@.grid.to_col(tabbed(old(self)@.tabs, old(self)@.grid.col, n as nat)),
            ),
    {
        let (_, c) = self.grid.pos();
        let to = tab_forward(&self.tabs, c, n);
        self.move_to_col(to);
    }

    fn tab_backward(&mut self, n: u16)
        requires
            old(self).wf(),
        ensures
            final(self).wf(),
            final(self)@ == old(self)@.on(
                old(self)@.grid.to_col(back_tabbed(old(self)@.tabs, old(self)@.grid.col, n as nat)),
            ),
    {
        let (_, c) = self.grid.pos();
        let to = tab_back(&self.tabs, c, n);
        self.move_to_col(to);
    }

    /// Do what an action asks for. The result says how often the sequence is to be reported
    /// as not understood.
    #[verifier::rlimit(60)]
    pub fn apply(&mut self, a: Action, p: &Vec<Vec<u16>>) -> (r: usize)
        requires
            old(self).wf(),
        ensures
            final(self).wf(),
            (final(self)@, r as int) == old(self)@.applied(a, param_views(p@)),
    {
        let mut missed: usize = 0;
        match a {
            Action::Text(c) => self.text(c),
            Action::Bs => self.grid.left(1),
            Action::Tab => self.tab(1),
            Action::Cht(n) => self.tab(n),
            Action::Cbt(n) => self.tab_backward(n),
            Action::Lf | Action::Vt | Action::Ff => self.grid.line_feed(),
            Action::Cr => self.grid.set_col(0),
            Action::Decsc => self.decsc(),
            Action::Decrc => self.decrc(),
            Action::Deckpam => {
                self.modes.application_keypad = true;
            },
            Action::Deckpnm => {
                self.modes.application_keypad = false;
            },
            Action::Hts => self.set_tab(true),
            Action::Ri => self.grid.reverse_feed(),
            Action::Ris => {
                *self = Screen::new(self.grid.nrows(), self.grid.ncols());
            },
            Action::Ich(n) => self.grid.insert_cells(n),
            Action::Cuu(n) => self.grid.up(n),
            Action::Cud(n) => self.grid.down(n),
            Action::Cuf(n) => self.grid.right(n),
            Action::Cub(n) => self.grid.left(n),
            Action::Cnl(n) => {
                self.grid.set_col(0);
                self.grid.down(n);
            },
            Action::Cpl(n) => {
                self.grid.set_col(0);
                self.grid.up(n);
            },
            Action::Cha(n) => self.grid.set_col(less_one(n)),
            Action::Vpa(n) => self.grid.set_row(less_one(n)),
            Action::Cup(r, c) => self.grid.set_pos(less_one(r), less_one(c)),
            Action::Ed(n) | Action::Decsed(n) => {
                if n <= 2 {
                    self.grid.erase_screen(n, self.modes.attrs);
                } else {
                    missed = 1;
                }
            },
            Action::El(n) | Action::Decsel(n) => {
                if n <= 2 {
                    self.grid.erase_line(n, self.modes.attrs);
                } else {
                    missed = 1;
                }
            },
            Action::Il(n) => self.grid.insert_lines(n),
            Action::Dl(n) => self.grid.delete_lines(n),
            Action::Dch(n) => self.grid.delete_cells(n),
            Action::Su(n) => self.grid.scroll_up(n),
            Action::Sd(n) => self.grid.scroll_down(n),
            Action::Ech(n) => self.grid.erase_cells(n, self.modes.attrs),
            Action::Rep(n) => {
                if let Some(c) = self.modes.last {
                    self.rep(c, n);
                }
            },
            Action::Tbc(n) => {
                if n == 0 {
                    self.set_tab(false);
                } else if n == 3 {
                    self.clear_tabs();
                }
            },
            Action::Sm => {
                missed = self.set_modes(p, false, true);
            },
            Action::Rm => {
                missed = self.set_modes(p, false, false);
            },
            Action::Decset => {
                missed = self.set_modes(p, true, true);
            },
            Action::Decrst => {
                missed = self.set_modes(p, true, false);
            },
            Action::Sgr => {
                let (attrs, n) = apply_sgr(self.modes.attrs, p);
                self.modes.attrs = attrs;
                missed = n;
            },
            Action::Decstbm(t, b) => self.grid.set_region(less_one(t), less_one(b)),
            Action::Scosc => {
                let (r, c) = self.grid.pos();
                self.modes.mark_row = r;
                self.modes.mark_col = c;
            },
            Action::Scorc => self.grid.set_at(self.modes.mark_row, self.modes.mark_col),
            Action::TitlePush => self.title_push(),
            Action::TitlePop => self.title_pop(),
            Action::Decscusr(n) => {
                self.modes.cursor_style = n;
            },
            Action::Decstr => self.decstr(),
            Action::UnhandledCsi(_, _, _) => {
                missed = 1;
            },
            Action::Ignore
            | Action::AudibleBell
            | Action::VisualBell
            | Action::Resize(_, _)
            | Action::UnhandledChar(_)
            | Action::UnhandledControl(_)
            | Action::UnhandledEscape(_, _, _) => {},
        }
        assert(self@ =~= old(self)@.applied(a, param_views(p@)).0);
        missed
    }

    fn link_open(&mut self, uri: &Vec<u8>)
        requires
            old(self).wf(),
        ensures
            final(self).wf(),
            final(self)@ == old(self)@.commanded(OscView::LinkOpen(uri@)),
    {
        let ghost links = self@.links;
        let mut i: usize = 0;
        while i < self.links.len() && !same_bytes(self.links[i].as_slice(), uri.as_slice())
            invariant
                i <= self.links@.len(),
                links == bytes_views(self.links@),
                link_number(links, uri@, i as int) == link_number(links, uri@, 0),
            decreases self.links@.len() - i,
        {
            assert(links[i as int] == self.links@[i as int]@);
            i += 1;
        }
        if i < self.links.len() {
            assert(links[i as int] == self.links@[i as int]@);
        }
        if i >= u32::MAX as usize {
            return;
        }
        if i == self.links.len() {
            self.links.push(copy_bytes(uri.as_slice()));
            assert(bytes_views(self.links@) =~= links.push(uri@));
        }
        self.modes.attrs.link = Some(i as u32 + 1);
        assert(self@ =~= old(self)@.commanded(OscView::LinkOpen(uri@)));
    }

    /// Do one thing that an OSC sequence asks for.
    pub fn command(&mut self, a: &OscAction)
        requires
            old(self).wf(),
        ensures
            final(self).wf(),
            final(self)@ == old(self)@.commanded(a@),
    {
        match a {
            OscAction::SetTitle(t) => {
                self.title = copy_bytes(t.as_slice());
            },
            OscAction::SetDefaultFg(c) => {
                self.modes.default_fg = color_or_default(*c);
            },
            OscAction::SetDefaultBg(c) => {
                self.modes.default_bg = color_or_default(*c);
            },
            OscAction::LinkOpen(uri) => self.link_open(uri),
            OscAction::LinkClose => {
                self.modes.attrs.link = None;
            },
            _ => {},
        }
        assert(self@ =~= old(self)@.commanded(a@));
    }
}

} // verus!
