//! What holds of a screen over several actions.
use crate::vt::grid::{empty_grid, GridState};
use crate::vt::perform::{Action, OscView};
use crate::vt::screen::{fresh_screen, ScreenState};
use vstd::prelude::*;

verus! {

/// Whether a grid has `rows` rows and `cols` columns, with its cursor and its region in them.
spec fn fits(g: GridState, rows: int, cols: int) -> bool {
    &&& g.rows.len() == rows
    &&& g.ncols == cols
    &&& cols >= 1
    &&& 0 <= g.row < rows
    &&& 0 <= g.saved_row < rows
    &&& 0 <= g.top <= g.bottom < rows
}

spec fn both_fit(s: ScreenState, rows: int, cols: int) -> bool {
    fits(s.grid, rows, cols) && fits(s.other, rows, cols)
}

/// Whether two screens have one size.
pub open spec fn same_size(a: ScreenState, b: ScreenState) -> bool {
    &&& a.grid.rows.len() == b.grid.rows.len()
    &&& a.grid.ncols == b.grid.ncols
    &&& a.other.rows.len() == b.other.rows.len()
    &&& a.other.ncols == b.other.ncols
}

proof fn lemma_texted_fits(s: ScreenState, c: char, rows: int, cols: int)
    requires
        both_fit(s, rows, cols),
    ensures
        both_fit(s.texted(c), rows, cols),
{
}

proof fn lemma_repeated_fits(s: ScreenState, c: char, n: nat, rows: int, cols: int)
    requires
        both_fit(s, rows, cols),
    ensures
        both_fit(s.repeated(c, n), rows, cols),
    decreases n,
{
    if n > 0 {
        lemma_texted_fits(s, c, rows, cols);
        lemma_repeated_fits(s.texted(c), c, (n - 1) as nat, rows, cols);
    }
}

proof fn lemma_moded_fits(
    s: ScreenState,
    p: Seq<Seq<u16>>,
    i: int,
    private: bool,
    on: bool,
    rows: int,
    cols: int,
)
    requires
        both_fit(s, rows, cols),
        0 <= i,
    ensures
        both_fit(s.all_moded(p, i, private, on).0, rows, cols),
    decreases p.len() - i,
{
    if i < p.len() {
        let n = crate::vt::sgr::single(p, i);
        let next = if private {
            s.private_moded(n, on)
        } else {
            s.moded(n, on)
        };
        match next {
            Some(t) => {
                lemma_moded_fits(t, p, i + 1, private, on, rows, cols);
            },
            None => {
                lemma_moded_fits(s, p, i + 1, private, on, rows, cols);
            },
        }
    }
}

/// No action changes the size of a screen.
pub proof fn law_actions_keep_the_size(s: ScreenState, a: Action, p: Seq<Seq<u16>>)
    requires
        s.ok(),
    ensures
        same_size(s.applied(a, p).0, s),
{
    lemma_applied_size(s, a, p, s.grid.rows.len() as int, s.grid.ncols);
    reveal(keeps_size);
}

#[verifier::opaque]
spec fn keeps_size(s: ScreenState, a: Action, p: Seq<Seq<u16>>) -> bool {
    same_size(s.applied(a, p).0, s)
}

proof fn lemma_moves_size(s: ScreenState, a: Action, p: Seq<Seq<u16>>, rows: int, cols: int)
    requires
        both_fit(s, rows, cols),
        a is Bs || a is Tab || a is Cht || a is Cbt || a is Lf || a is Vt || a is Ff || a is Cr || a is Ri || a is Cuu || a is Cud || a is Cuf || a is Cub,
    ensures
        keeps_size(s, a, p),
{
    reveal(keeps_size);
}

proof fn lemma_places_size(s: ScreenState, a: Action, p: Seq<Seq<u16>>, rows: int, cols: int)
    requires
        both_fit(s, rows, cols),
        a is Cnl || a is Cpl || a is Cha || a is Vpa || a is Cup || a is Scorc || a is Scosc || a is Decstbm || a is Hts || a is Tbc || a is Decsc || a is Decrc,
    ensures
        keeps_size(s, a, p),
{
    reveal(keeps_size);
}

proof fn lemma_edits_size(s: ScreenState, a: Action, p: Seq<Seq<u16>>, rows: int, cols: int)
    requires
        both_fit(s, rows, cols),
        a is Ich || a is Dch || a is Ech || a is Ed || a is Decsed || a is El || a is Decsel || a is Il || a is Dl || a is Su || a is Sd,
    ensures
        keeps_size(s, a, p),
{
    reveal(keeps_size);
}

proof fn lemma_applied_size(s: ScreenState, a: Action, p: Seq<Seq<u16>>, rows: int, cols: int)
    requires
        both_fit(s, rows, cols),
    ensures
        keeps_size(s, a, p),
{
    if a is Bs || a is Tab || a is Cht || a is Cbt || a is Lf || a is Vt || a is Ff || a is Cr || a is Ri || a is Cuu || a is Cud || a is Cuf || a is Cub {
        lemma_moves_size(s, a, p, rows, cols);
    } else if a is Cnl || a is Cpl || a is Cha || a is Vpa || a is Cup || a is Scorc || a is Scosc || a is Decstbm || a is Hts || a is Tbc || a is Decsc || a is Decrc {
        lemma_places_size(s, a, p, rows, cols);
    } else if a is Ich || a is Dch || a is Ech || a is Ed || a is Decsed || a is El || a is Decsel || a is Il || a is Dl || a is Su || a is Sd {
        lemma_edits_size(s, a, p, rows, cols);
    } else if a is Text || a is Rep || a is Sm || a is Rm || a is Decset || a is Decrst {
        lemma_writes_size(s, a, p, rows, cols);
    } else {
        lemma_rest_size(s, a, p, rows, cols);
    }
}

#[verifier::rlimit(30)]
proof fn lemma_rest_size(s: ScreenState, a: Action, p: Seq<Seq<u16>>, rows: int, cols: int)
    requires
        both_fit(s, rows, cols),
        a is Deckpam || a is Deckpnm || a is Ris || a is Sgr || a is TitlePush || a is TitlePop || a is Decscusr || a is Decstr || a is UnhandledCsi || a is Ignore || a is AudibleBell || a is VisualBell || a is Resize || a is UnhandledChar || a is UnhandledControl || a is UnhandledEscape,
    ensures
        keeps_size(s, a, p),
{
    reveal(keeps_size);
}

proof fn lemma_fitting_same(t: ScreenState, s: ScreenState, rows: int, cols: int)
    requires
        both_fit(t, rows, cols),
        both_fit(s, rows, cols),
    ensures
        same_size(t, s),
{
}

proof fn lemma_text_size(s: ScreenState, c: char, p: Seq<Seq<u16>>, rows: int, cols: int)
    requires
        both_fit(s, rows, cols),
    ensures
        keeps_size(s, Action::Text(c), p),
{
    lemma_texted_fits(s, c, rows, cols);
    lemma_fitting_same(s.texted(c), s, rows, cols);
    reveal(keeps_size);
}

proof fn lemma_rep_size(s: ScreenState, n: u16, p: Seq<Seq<u16>>, rows: int, cols: int)
    requires
        both_fit(s, rows, cols),
    ensures
        keeps_size(s, Action::Rep(n), p),
{
    if let Some(c) = s.modes.last {
        lemma_repeated_fits(s, c, n as nat, rows, cols);
        lemma_fitting_same(s.repeated(c, n as nat), s, rows, cols);
    }
    reveal(keeps_size);
}

proof fn lemma_sm_size(s: ScreenState, on: bool, p: Seq<Seq<u16>>, rows: int, cols: int)
    requires
        both_fit(s, rows, cols),
    ensures
        keeps_size(s, if on { Action::Sm } else { Action::Rm }, p),
{
    lemma_moded_fits(s, p, 0, false, on, rows, cols);
    lemma_fitting_same(s.all_moded(p, 0, false, on).0, s, rows, cols);
    reveal(keeps_size);
}

proof fn lemma_decset_size(s: ScreenState, on: bool, p: Seq<Seq<u16>>, rows: int, cols: int)
    requires
        both_fit(s, rows, cols),
    ensures
        keeps_size(s, if on { Action::Decset } else { Action::Decrst }, p),
{
    lemma_moded_fits(s, p, 0, true, on, rows, cols);
    lemma_fitting_same(s.all_moded(p, 0, true, on).0, s, rows, cols);
    reveal(keeps_size);
}

proof fn lemma_writes_size(s: ScreenState, a: Action, p: Seq<Seq<u16>>, rows: int, cols: int)
    requires
        both_fit(s, rows, cols),
        a is Text || a is Rep || a is Sm || a is Rm || a is Decset || a is Decrst,
    ensures
        keeps_size(s, a, p),
{
    match a {
        Action::Text(c) => lemma_text_size(s, c, p, rows, cols),
        Action::Rep(n) => lemma_rep_size(s, n, p, rows, cols),
        Action::Sm => lemma_sm_size(s, true, p, rows, cols),
        Action::Rm => lemma_sm_size(s, false, p, rows, cols),
        Action::Decset => lemma_decset_size(s, true, p, rows, cols),
        _ => lemma_decset_size(s, false, p, rows, cols),
    }
}

/// Restoring the cursor gives back the place, the origin and the attributes that were saved,
/// whatever was drawn in between.
pub proof fn law_saved_cursor_comes_back(
    s: ScreenState,
    rows: Seq<crate::vt::row::RowState>,
    row: int,
    col: int,
    attrs: crate::vt::attrs::Attrs,
)
    ensures
        ({
            let saved = s.applied(Action::Decsc, Seq::empty()).0;
            let then = ScreenState {
                grid: GridState { rows, row, col, ..saved.grid },
                modes: crate::vt::screen::Modes { attrs, ..saved.modes },
                ..saved
            };
            let back = then.applied(Action::Decrc, Seq::empty()).0;
            &&& back.grid.row == s.grid.row
            &&& back.grid.col == s.grid.col
            &&& back.grid.origin == s.grid.origin
            &&& back.modes.attrs == s.modes.attrs
        }),
{
}

/// What is drawn on the alternate screen is gone when the main screen is back, which is as it
/// was left, with its cursor.
pub proof fn law_main_screen_comes_back(s: ScreenState, drawn: GridState)
    requires
        !s.modes.alternate,
    ensures
        ({
            let p = seq![seq![1049u16]];
            let there = s.applied(Action::Decset, p).0;
            let back = there.on(drawn).applied(Action::Decrst, p).0;
            &&& there.modes.alternate
            &&& there.grid == empty_grid(s.other.rows.len() as int, s.other.ncols)
            &&& !back.modes.alternate
            &&& back.grid.rows == s.grid.rows
            &&& back.grid.row == s.grid.row
            &&& back.grid.col == s.grid.col
            &&& back.modes.attrs == s.modes.attrs
        }),
{
    let p = seq![seq![1049u16]];
    assert(p[0] == seq![1049u16]);
    assert(crate::vt::sgr::single(p, 0) == Some(1049u16));
    let there = s.entered();
    assert(s.private_moded(Some(1049u16), true) == Some(there));
    assert(there.all_moded(p, 1, true, true) == (there, 0int));
    assert(s.all_moded(p, 0, true, true) == (there, 0int));
    let t = there.on(drawn);
    let back = t.shown(false).decrc();
    assert(t.private_moded(Some(1049u16), false) == Some(back));
    assert(back.all_moded(p, 1, true, false) == (back, 0int));
    assert(t.all_moded(p, 0, true, false) == (back, 0int));
}

/// A reset leaves nothing of what was before but the size.
pub proof fn law_reset_is_fresh(s: ScreenState, t: ScreenState)
    requires
        s.grid.rows.len() == t.grid.rows.len(),
        s.grid.ncols == t.grid.ncols,
    ensures
        s.applied(Action::Ris, Seq::empty()) == t.applied(Action::Ris, Seq::empty()),
        s.applied(Action::Ris, Seq::empty()).0 == fresh_screen(
            s.grid.rows.len() as int,
            s.grid.ncols,
        ),
{
}

/// A soft reset leaves the contents, the cursor's place, the tab stops and the screen that is
/// shown.
pub proof fn law_soft_reset_keeps_the_contents(s: ScreenState)
    ensures
        ({
            let t = s.applied(Action::Decstr, Seq::empty()).0;
            &&& t.grid.rows == s.grid.rows
            &&& t.grid.row == s.grid.row
            &&& t.grid.col == s.grid.col
            &&& t.other == s.other
            &&& t.tabs == s.tabs
            &&& t.modes.alternate == s.modes.alternate
            &&& t.title == s.title
        }),
{
}

/// A link that is opened again has the number that it had.
pub proof fn law_links_keep_their_numbers(s: ScreenState, uri: Seq<u8>)
    requires
        s.links.len() < u32::MAX,
    ensures
        ({
            let once = s.commanded(OscView::LinkOpen(uri));
            let twice = once.commanded(OscView::LinkClose).commanded(OscView::LinkOpen(uri));
            &&& once.modes.attrs.link matches Some(n) && 1 <= n <= once.links.len() && once.links[n
                - 1] == uri
            &&& twice.modes.attrs.link == once.modes.attrs.link
            &&& twice.links == once.links
        }),
{
    let once = s.commanded(OscView::LinkOpen(uri));
    lemma_link_number(s.links, uri, 0);
    let n = crate::vt::screen::link_number(s.links, uri, 0);
    lemma_link_found(once.links, uri, 0, n - 1);
}

proof fn lemma_link_number(links: Seq<Seq<u8>>, uri: Seq<u8>, i: int)
    requires
        0 <= i <= links.len(),
    ensures
        ({
            let n = crate::vt::screen::link_number(links, uri, i);
            &&& i < n <= links.len() + 1
            &&& n <= links.len() ==> links[n - 1] == uri
            &&& forall|j: int| i <= j < n - 1 ==> links[j] != uri
        }),
    decreases links.len() - i,
{
    if i < links.len() && links[i] != uri {
        lemma_link_number(links, uri, i + 1);
    }
}

proof fn lemma_link_found(links: Seq<Seq<u8>>, uri: Seq<u8>, i: int, k: int)
    requires
        0 <= i <= k < links.len(),
        links[k] == uri,
        forall|j: int| i <= j < k ==> links[j] != uri,
    ensures
        crate::vt::screen::link_number(links, uri, i) == k + 1,
    decreases k - i,
{
    if i < k {
        lemma_link_found(links, uri, i + 1, k);
    }
}

} // verus!
