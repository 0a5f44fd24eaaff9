//! What modes, titles and links do to a screen, and what the screen keeps.
use crate::vt::cell_laws::{at, is_empty, kept, narrow};
use crate::vt::cursor_laws::{csi, esc, private, times};
use crate::vt::parser::{all_played, played, EventView};
use crate::vt::perform::operating_system_command;
use crate::vt::screen::{
    flag_moded, mouse_moded, Modes, MouseProtocolEncoding, MouseProtocolMode, ScreenState,
};
use vstd::prelude::*;
use vstd::string::*;

verus! {

/// The screen with other modes.
pub open spec fn but(s: ScreenState, modes: Modes) -> ScreenState {
    ScreenState { modes, ..s }
}

proof fn lemma_private(s: ScreenState, n: u16)
    ensures
        played(s, private(n, 'h')) == match s.private_moded(Some(n), true) {
            Some(t) => t,
            None => s,
        },
        played(s, private(n, 'l')) == match s.private_moded(Some(n), false) {
            Some(t) => t,
            None => s,
        },
{
    reveal(played);
    reveal_with_fuel(ScreenState::all_moded, 2);
}

/// The private modes that are flags: 1 is the application's cursor keys, 7 wraps lines, 2004
/// brackets what is pasted. Each is set by `h` and reset by `l`, and nothing else changes.
pub proof fn law_flags_are_set_and_reset(s: ScreenState)
    ensures
        played(s, private(1, 'h')) == but(s, Modes { application_cursor: true, ..s.modes }),
        played(s, private(1, 'l')) == but(s, Modes { application_cursor: false, ..s.modes }),
        played(s, private(7, 'h')) == but(s, Modes { autowrap: true, ..s.modes }),
        played(s, private(7, 'l')) == but(s, Modes { autowrap: false, ..s.modes }),
        played(s, private(2004, 'h')) == but(s, Modes { bracketed_paste: true, ..s.modes }),
        played(s, private(2004, 'l')) == but(s, Modes { bracketed_paste: false, ..s.modes }),
{
    lemma_private(s, 1);
    lemma_private(s, 7);
    lemma_private(s, 2004);
}

/// `ESC =` and `ESC >` switch the application's keypad on and off.
pub proof fn law_keypad_is_switched(s: ScreenState)
    ensures
        played(s, esc(0x3d)) == but(s, Modes { application_keypad: true, ..s.modes }),
        played(s, esc(0x3e)) == but(s, Modes { application_keypad: false, ..s.modes }),
{
    reveal(played);
}

/// A private mode that reports the mouse, and what it reports.
pub open spec fn mouse_number(k: MouseProtocolMode) -> u16 {
    match k {
        MouseProtocolMode::Off => 0,
        MouseProtocolMode::Press => 9,
        MouseProtocolMode::PressRelease => 1000,
        MouseProtocolMode::ButtonMotion => 1002,
        MouseProtocolMode::AnyMotion => 1003,
    }
}

proof fn lemma_mouse_number(m: Modes, k: MouseProtocolMode)
    requires
        k != MouseProtocolMode::Off,
    ensures
        flag_moded(m, mouse_number(k), true) == Some(mouse_moded(m, k, true)),
        flag_moded(m, mouse_number(k), false) == Some(mouse_moded(m, k, false)),
        mouse_number(k) != 6 && mouse_number(k) != 47 && mouse_number(k) != 1049,
{
    match k {
        MouseProtocolMode::Off => {},
        MouseProtocolMode::Press => {},
        MouseProtocolMode::PressRelease => {},
        MouseProtocolMode::ButtonMotion => {},
        MouseProtocolMode::AnyMotion => {},
    }
}

/// The private modes 9, 1000, 1002 and 1003 report the mouse's presses, its presses and
/// releases, its motion with a button held, and all motion. The one that is set last holds;
/// resetting another one than that does nothing.
pub proof fn law_mouse_modes(s: ScreenState, k: MouseProtocolMode)
    requires
        k != MouseProtocolMode::Off,
    ensures
        played(s, private(mouse_number(k), 'h')) == but(s, Modes { mouse: k, ..s.modes }),
        s.modes.mouse == k ==> played(s, private(mouse_number(k), 'l')) == but(
            s,
            Modes { mouse: MouseProtocolMode::Off, ..s.modes },
        ),
        s.modes.mouse != k ==> played(s, private(mouse_number(k), 'l')) == s,
{
    let n = mouse_number(k);
    lemma_mouse_number(s.modes, k);
    assert(s.private_moded(Some(n), true) == Some(but(s, mouse_moded(s.modes, k, true))));
    assert(s.private_moded(Some(n), false) == Some(but(s, mouse_moded(s.modes, k, false))));
    lemma_private(s, n);
}

/// The private modes 1005 and 1006 choose how the mouse is reported.
pub proof fn law_mouse_encodings(s: ScreenState)
    ensures
        played(s, private(1005, 'h')) == but(
            s,
            Modes { encoding: MouseProtocolEncoding::Utf8, ..s.modes },
        ),
        played(s, private(1006, 'h')) == but(
            s,
            Modes { encoding: MouseProtocolEncoding::Sgr, ..s.modes },
        ),
        s.modes.encoding == MouseProtocolEncoding::Sgr ==> played(s, private(1006, 'l')) == but(
            s,
            Modes { encoding: MouseProtocolEncoding::Default, ..s.modes },
        ),
        s.modes.encoding != MouseProtocolEncoding::Sgr ==> played(s, private(1006, 'l')) == s,
        s.modes.encoding == MouseProtocolEncoding::Utf8 ==> played(s, private(1005, 'l')) == but(
            s,
            Modes { encoding: MouseProtocolEncoding::Default, ..s.modes },
        ),
        s.modes.encoding != MouseProtocolEncoding::Utf8 ==> played(s, private(1005, 'l')) == s,
{
    lemma_private(s, 1005);
    lemma_private(s, 1006);
}

/// `CSI ?2026h` begins a synchronized update and `CSI ?2026l` ends it; both are counted.
pub proof fn law_synchronized_updates_are_counted(s: ScreenState)
    requires
        s.modes.starts < u32::MAX,
        s.modes.ends < u32::MAX,
    ensures
        played(s, private(2026, 'h')) == but(
            s,
            Modes { synchronized_update: true, starts: (s.modes.starts + 1) as u32, ..s.modes },
        ),
        played(s, private(2026, 'l')) == but(
            s,
            Modes { synchronized_update: false, ends: (s.modes.ends + 1) as u32, ..s.modes },
        ),
{
    reveal(played);
    reveal_with_fuel(ScreenState::all_moded, 2);
}

/// `CSI 4h` makes text move what is behind it to the right, and `CSI 4l` makes it overwrite.
pub proof fn law_insert_mode_is_switched(s: ScreenState)
    ensures
        played(s, csi(4, 'h')) == but(s, Modes { insert: true, ..s.modes }),
        played(s, csi(4, 'l')) == but(s, Modes { insert: false, ..s.modes }),
{
    reveal(played);
    reveal_with_fuel(ScreenState::all_moded, 2);
}

/// In insert mode a character of one column goes to the cursor's cell, those before it stay, and
/// those from there on move to the right by one.
pub proof fn law_inserted_text_moves_the_rest(s: ScreenState, c: char)
    requires
        s.ok(),
        narrow(c),
        s.grid.col < s.grid.ncols,
        s.modes.insert,
    ensures
        ({
            let t = played(s, EventView::Print(c));
            let (r, k) = (s.grid.row, s.grid.col);
            &&& at(t, r, k).text == seq![c] && at(t, r, k).attrs == s.modes.attrs
            &&& t.grid.row == r && t.grid.col == k + 1
            &&& forall|j: int| 0 <= j < k ==> kept(#[trigger] at(t, r, j), at(s, r, j))
            &&& forall|j: int|
                k < j < s.grid.ncols ==> kept(#[trigger] at(t, r, j), at(s, r, j - 1))
        }),
{
    reveal(played);
    assert(s.grid.rows[s.grid.row].cells.len() == s.grid.ncols);
}

/// `CSI n SP q` sets the cursor's shape, from 0 to 6, and nothing else.
pub proof fn law_cursor_shape_is_set(s: ScreenState, n: u16)
    requires
        n <= 6,
    ensures
        ({
            let e = EventView::Csi {
                params: seq![seq![n]],
                intermediates: seq![0x20u8],
                action: 'q',
            };
            &&& played(s, e) == but(s, Modes { cursor_style: n as u8, ..s.modes })
            &&& crate::parse::shown_grid(played(s, e)).cursor_style == n
        }),
{
    reveal(played);
}

/// `CSI 22;0t` keeps the title and `CSI 23;0t` brings it back, whatever it was set to between;
/// without a kept one nothing happens.
pub proof fn law_kept_title_comes_back(s: ScreenState, title: Seq<u8>)
    ensures
        ({
            let kept = played(s, crate::vt::cursor_laws::csi2(22, 0, 't'));
            let changed = ScreenState { title, ..kept };
            &&& kept.title == s.title
            &&& played(changed, crate::vt::cursor_laws::csi2(23, 0, 't')) == s
            &&& s.titles.len() == 0 ==> played(s, crate::vt::cursor_laws::csi2(23, 0, 't')) == s
        }),
{
    lemma_title_ops(s);
    let kept = played(s, crate::vt::cursor_laws::csi2(22, 0, 't'));
    let changed = ScreenState { title, ..kept };
    lemma_title_ops(changed);
    assert(changed.titles.last() == s.title);
    assert(changed.titles.drop_last() =~= s.titles);
    assert(played(changed, crate::vt::cursor_laws::csi2(23, 0, 't')) =~= s);
}

proof fn lemma_title_ops(s: ScreenState)
    ensures
        played(s, crate::vt::cursor_laws::csi2(22, 0, 't')) == (ScreenState {
            titles: s.titles.push(s.title),
            ..s
        }),
        s.titles.len() > 0 ==> played(s, crate::vt::cursor_laws::csi2(23, 0, 't')) == (ScreenState {
            title: s.titles.last(),
            titles: s.titles.drop_last(),
            ..s
        }),
        s.titles.len() == 0 ==> played(s, crate::vt::cursor_laws::csi2(23, 0, 't')) == s,
{
    reveal(played);
}

/// A character is printed again `n` times by `CSI n b`: it is as if it were printed so often.
pub proof fn law_repetition_prints_again(s: ScreenState, c: char, n: u16)
    requires
        narrow(c),
        s.modes.last == Some(c),
    ensures
        played(s, csi(n, 'b')) == all_played(
            s,
            Seq::new(times(n) as nat, |i: int| EventView::Print(c)),
            0,
        ),
{
    let v = Seq::new(times(n) as nat, |i: int| EventView::Print(c));
    lemma_repeated(s, c, times(n) as nat);
    assert(played(s, csi(n, 'b')) == s.repeated(c, times(n) as nat)) by {
        reveal(played);
    }
    lemma_print_times(s, c, times(n) as nat, v, 0);
}

proof fn lemma_repeated(s: ScreenState, c: char, n: nat)
    requires
        narrow(c),
    ensures
        played(s, EventView::Print(c)) == s.texted(c),
{
    reveal(played);
}

proof fn lemma_print_times(s: ScreenState, c: char, n: nat, v: Seq<EventView>, i: int)
    requires
        narrow(c),
        0 <= i,
        v.len() == i + n,
        forall|j: int| 0 <= j < v.len() ==> #[trigger] v[j] == EventView::Print(c),
    ensures
        all_played(s, v, i) == s.repeated(c, n),
    decreases n,
{
    if n > 0 {
        lemma_repeated(s, c, n);
        assert(v[i] == EventView::Print(c));
        lemma_print_times(s.texted(c), c, (n - 1) as nat, v, i + 1);
    }
}

/// Printing remembers what can be repeated: the last character that took a column.
pub proof fn law_last_text_is_remembered(s: ScreenState, c: char)
    requires
        narrow(c),
    ensures
        played(s, EventView::Print(c)).modes.last == Some(c),
{
    reveal(played);
}

/// `CSI ?1049h` shows an empty screen and keeps the cursor and the other screen; `CSI ?1049l`
/// shows that one again, with the cursor and the attributes as they were.
pub proof fn law_alternate_screen_is_left_as_it_was_entered(s: ScreenState)
    requires
        s.ok(),
        !s.modes.alternate,
    ensures
        ({
            let a = played(s, private(1049, 'h'));
            let b = played(a, private(1049, 'l'));
            &&& a.modes.alternate
            &&& forall|i: int, j: int|
                0 <= i < s.grid.rows.len() && 0 <= j < s.grid.ncols ==> is_empty(#[trigger] at(a, i, j))
            &&& b.grid.rows == s.grid.rows
            &&& b.grid.row == s.grid.row && b.grid.col == s.grid.col
            &&& b.modes.attrs == s.modes.attrs
            &&& !b.modes.alternate
        }),
{
    lemma_enter(s);
    lemma_leave(played(s, private(1049, 'h')));
}

proof fn lemma_enter(s: ScreenState)
    ensures
        played(s, private(1049, 'h')) == s.entered(),
{
    reveal(played);
    reveal_with_fuel(ScreenState::all_moded, 2);
}

proof fn lemma_leave(s: ScreenState)
    ensures
        played(s, private(1049, 'l')) == s.shown(false).decrc(),
{
    reveal(played);
    reveal_with_fuel(ScreenState::all_moded, 2);
}

/// A screen in another size keeps its cells in their places, as far as there is room, and has
/// empty ones in the new places.
pub proof fn law_resized_screen_keeps_its_cells(s: ScreenState, rows: int, cols: int)
    requires
        s.ok(),
        rows >= 1,
        cols >= 1,
    ensures
        ({
            let t = s.sized(rows, cols);
            &&& t.grid.rows.len() == rows && t.grid.ncols == cols
            &&& forall|i: int, j: int|
                0 <= i < rows && i < s.grid.rows.len() && 0 <= j < cols && j < s.grid.ncols ==> kept(
                    #[trigger] at(t, i, j),
                    at(s, i, j),
                )
            &&& forall|i: int, j: int|
                0 <= i < rows && 0 <= j < cols && (i >= s.grid.rows.len() || j >= s.grid.ncols)
                    ==> is_empty(#[trigger] at(t, i, j))
            &&& s.grid.row < rows ==> t.grid.row == s.grid.row
            &&& s.grid.col < cols && s.grid.col < s.grid.ncols ==> t.grid.col == s.grid.col
            &&& t.modes == s.modes && t.title == s.title
        }),
{
    assert(forall|i: int|
        0 <= i < s.grid.rows.len() ==> (#[trigger] s.grid.rows[i]).cells.len() == s.grid.ncols);
}

/// `OSC 0` and `OSC 2` set the title, `OSC 1` does not.
pub proof fn law_title_is_set(s: ScreenState, t: Seq<u8>)
    ensures
        played(s, EventView::Osc { fields: seq!["2".spec_bytes(), t] }).title == t,
        played(s, EventView::Osc { fields: seq!["0".spec_bytes(), t] }).title == t,
        played(s, EventView::Osc { fields: seq!["1".spec_bytes(), t] }).title == s.title,
{
    reveal(played);
    lemma_digits_differ();
    reveal_with_fuel(crate::vt::wrapped::all_commanded, 4);
    let a = operating_system_command(seq!["2".spec_bytes(), t]);
    let b = operating_system_command(seq!["0".spec_bytes(), t]);
    let c = operating_system_command(seq!["1".spec_bytes(), t]);
}

proof fn lemma_digits_differ()
    ensures
        "0".spec_bytes() != "1".spec_bytes(),
        "0".spec_bytes() != "2".spec_bytes(),
        "1".spec_bytes() != "2".spec_bytes(),
{
    reveal_strlit("0");
    reveal_strlit("1");
    reveal_strlit("2");
    vstd::utf8::encode_utf8_decode_utf8("0"@);
    vstd::utf8::encode_utf8_decode_utf8("1"@);
    vstd::utf8::encode_utf8_decode_utf8("2"@);
    assert("0"@[0] != "1"@[0] && "0"@[0] != "2"@[0] && "1"@[0] != "2"@[0]);
}

} // verus!
