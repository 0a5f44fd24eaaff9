//! A command's output on its way to the terminal and to the screen that viewers see.
use crate::b64::{standard_b64_text, standard_encode};
use crate::image_laws::{lemma_shown_concat, lemma_shown_one, shown};
use crate::images::{
    finish_deferred, finished, initial, step_views, tee_of, DeferredView, Image,
    ImageView, Interceptor, InterceptorState, Step, StepView,
};
use crate::model::{CellView, Frame, FrameView, ImagePlacement, PlacementView};
use crate::parse::{shown_grid, styled_cell, styled_row};
use crate::pty::{
    bears, cells_of_image, due, frame_due, frame_from, framed, image_cells, mark_for, mark_from,
    mark_in_row, mark_of, notice, placed_row, placed_views, row_number, Notifier, Placed,
    PlacedView,
};
use crate::text::{copy_bytes, push_bytes};
use crate::vt::attrs::Attrs;
use crate::vt::cell::{char_columns, is_wide_char};
use crate::vt::dump::{input_modes, whole_paint};
use crate::vt::grid::most;
use crate::vt::parser::{all_played, vte_events, OutputParser};
use crate::vt::row::{is_half, unmended, written, Glyph};
use crate::vt::screen::{fresh_screen, ScreenState};
use crate::vt::wrapped::WrappedScreen;
use vstd::prelude::*;
use vstd::string::*;
use vstd::utf8::encode_utf8;

verus! {

/// The image protocols that a terminal shows.
#[derive(Debug, Clone, Copy, PartialEq, Eq, Structural)]
pub struct Protocols {
    pub kitty: bool,
    pub iterm: bool,
    pub sixel: bool,
}

/// What is to be done with a piece of output, in order.
#[derive(Debug, PartialEq, Eq)]
pub enum Effect {
    /// Write the bytes to the terminal.
    Terminal(Vec<u8>),
    /// Hand the bytes to the screen's parser.
    Screen(Vec<u8>),
    /// Place the image at the cursor of the screen, as it is then.
    Place(Image),
    /// Write the bytes to the command.
    Answer(Vec<u8>),
}

/// The model of [`Effect`].
pub ghost enum EffectView {
    Terminal(Seq<u8>),
    Screen(Seq<u8>),
    Place(ImageView),
    Answer(Seq<u8>),
}

impl View for Effect {
    type V = EffectView;

    open spec fn view(&self) -> EffectView {
        match self {
            Effect::Terminal(b) => EffectView::Terminal(b@),
            Effect::Screen(b) => EffectView::Screen(b@),
            Effect::Place(i) => EffectView::Place(i@),
            Effect::Answer(b) => EffectView::Answer(b@),
        }
    }
}

/// The models of effects.
pub open spec fn effect_views(s: Seq<Effect>) -> Seq<EffectView> {
    Seq::new(s.len(), |i: int| s[i]@)
}

/// A deferred image, decoded and encoded.
pub open spec fn done(d: DeferredView) -> Option<ImageView> {
    match finished(d.payload, false) {
        Some((bytes, px)) => Some(
            ImageView { mime: "image/png"@, bytes, cells: d.cells, px: Some(px) },
        ),
        None => None,
    }
}

/// What one step asks for besides what the terminal is shown.
pub open spec fn beside(s: StepView) -> Seq<EffectView> {
    match s {
        StepView::Passthrough(b) => seq![EffectView::Screen(b)],
        StepView::TerminalOnly(_) => Seq::empty(),
        StepView::Image(_, i) => seq![EffectView::Place(i)],
        StepView::Deferred(_, d) => match done(d) {
            Some(i) => seq![EffectView::Place(i)],
            None => Seq::empty(),
        },
        StepView::Reject(b) => seq![EffectView::Answer(b)],
    }
}

/// What one step asks for. The terminal is left alone while it shows a notice.
pub open spec fn effects_of_step(s: StepView, connected: bool) -> Seq<EffectView> {
    (match tee_of(s) {
        Some(b) => if connected {
            seq![EffectView::Terminal(b)]
        } else {
            Seq::empty()
        },
        None => Seq::empty(),
    }) + beside(s)
}

/// What steps ask for, in order.
pub open spec fn effects_of(steps: Seq<StepView>, connected: bool) -> Seq<EffectView>
    decreases steps.len(),
{
    if steps.len() == 0 {
        Seq::empty()
    } else {
        effects_of(steps.drop_last(), connected) + effects_of_step(steps.last(), connected)
    }
}

/// A command's output on its way: the screen, the images on it, and whether the terminal shows
/// the command or a notice.
pub struct Mirror {
    pub wrapped: WrappedScreen,
    parser: OutputParser,
    interceptor: Interceptor,
    images: Vec<Placed>,
    marks: u32,
    notifier: Notifier,
    dirty: bool,
    cell: (u16, u16),
}

/// The cells of an image: its mark, its first column, and its size.
#[derive(Clone, Copy)]
pub struct Stamp {
    pub mark: char,
    pub col: u16,
    pub cols: u16,
    pub rows: u16,
}

/// The model of [`Mirror`].
#[verifier::ext_equal]
pub ghost struct MirrorState {
    pub screen: ScreenState,
    /// What the screen's parser has read, read by read.
    pub reads: Seq<Seq<u8>>,
    pub interceptor: InterceptorState,
    pub images: Seq<PlacedView>,
    /// How many images were placed.
    pub marks: u32,
    /// The terminal shows the command.
    pub connected: bool,
    /// The screen has changed since the last frame.
    pub dirty: bool,
    /// The size of a cell in pixels.
    pub cell: (u16, u16),
}

impl View for Mirror {
    type V = MirrorState;

    closed spec fn view(&self) -> MirrorState {
        MirrorState {
            screen: self.wrapped.screen@,
            reads: self.parser.reads(),
            interceptor: self.interceptor@,
            images: placed_views(self.images@),
            marks: self.marks,
            connected: self.notifier.shows_session(),
            dirty: self.dirty,
            cell: self.cell,
        }
    }
}

/// A part of an optional pair.
pub open spec fn first_of(c: Option<(u16, u16)>) -> Option<u16> {
    match c {
        Some((a, _)) => Some(a),
        None => None,
    }
}

/// The other part of an optional pair.
pub open spec fn second_of(c: Option<(u16, u16)>) -> Option<u16> {
    match c {
        Some((_, b)) => Some(b),
        None => None,
    }
}

impl MirrorState {
    /// Output read.
    pub open spec fn took(self, chunk: Seq<u8>) -> MirrorState {
        MirrorState { interceptor: self.interceptor.fed(chunk).0, dirty: true, ..self }
    }

    /// Bytes for the screen read.
    pub open spec fn showed(self, bytes: Seq<u8>) -> MirrorState {
        MirrorState {
            screen: all_played(self.screen, vte_events(self.reads, bytes), 0),
            reads: self.reads.push(bytes),
            ..self
        }
    }

    /// Cells of the cursor's row tagged as those of one row of an image.
    pub open spec fn stamped(self, col: int, n: int, mark: char, row: u16) -> MirrorState {
        MirrorState { screen: self.screen.on(self.screen.grid.stamped(col, n, mark, row)), ..self }
    }

    /// The rows of an image from the `k`-th on, each tagged in the cursor's row; between two of
    /// them the cursor goes to the next row, so that the screen scrolls where it has to.
    pub open spec fn tagged_rows(self, at: Stamp, k: int) -> MirrorState
        decreases at.rows - k,
    {
        let s = self.stamped(at.col as int, at.cols as int, at.mark, k as u16);
        if k + 1 < at.rows {
            s.showed(seq![0x0au8]).tagged_rows(at, k + 1)
        } else {
            s
        }
    }

    /// The column that the character before the cursor stands in.
    pub open spec fn last_col(self) -> u16 {
        most(self.screen.grid.col - 1, 0) as u16
    }

    /// An image drawn at the cursor: its mark is printed, and its cells are tagged from there
    /// on, row by row; the cursor is left in its last row. One of unknown size has one cell.
    #[verifier::opaque]
    pub open spec fn drew(self, mark: char, cells: Option<(u16, u16)>) -> MirrorState {
        let s = self.showed(encode_utf8(seq![mark]));
        match cells {
            Some((w, h)) => s.showed(seq![0x0du8]).tagged_rows(
                Stamp {
                    mark,
                    col: s.last_col(),
                    cols: most(w as int, 1) as u16,
                    rows: most(h as int, 1) as u16,
                },
                0,
            ),
            None => s.stamped(s.last_col() as int, 1, mark, 0),
        }
    }

    /// What one effect does here: bytes for the screen are read, and an image is placed and
    /// drawn, unless its data could not be held as text.
    #[verifier::opaque]
    pub open spec fn did(self, e: EffectView) -> MirrorState {
        match e {
            EffectView::Screen(b) => self.showed(b),
            EffectView::Place(i) => if i.bytes.len() <= usize::MAX / 4 {
                self.with_image(i).drew(
                    mark_of(self.marks),
                    cells_of_image(i.cells, i.px, self.cell),
                )
            } else {
                self
            },
            _ => self,
        }
    }

    /// What effects do here, from the `i`-th on.
    pub open spec fn did_all(self, e: Seq<EffectView>, i: int) -> MirrorState
        decreases e.len() - i,
    {
        if !(0 <= i < e.len()) {
            self
        } else {
            self.did(e[i]).did_all(e, i + 1)
        }
    }

    /// An image at the cursor, with its mark.
    pub open spec fn placed(self, img: ImageView) -> PlacedView {
        let cells = cells_of_image(img.cells, img.px, self.cell);
        PlacedView {
            mark: mark_of(self.marks),
            img: PlacementView {
                row: row_number(self.screen.grid.row),
                col: self.screen.grid.col as u16,
                cols: first_of(cells),
                rows: second_of(cells),
                mime: img.mime,
                data: standard_b64_text(img.bytes),
            },
        }
    }

    /// An image placed.
    pub open spec fn with_image(self, img: ImageView) -> MirrorState {
        MirrorState {
            images: self.images.push(self.placed(img)),
            marks: if self.marks == u32::MAX {
                0
            } else {
                (self.marks + 1) as u32
            },
            ..self
        }
    }
}

/// The effects that are for others: what the terminal is shown, and what the command is
/// answered.
pub open spec fn outward(e: Seq<EffectView>) -> Seq<EffectView>
    decreases e.len(),
{
    if e.len() == 0 {
        Seq::empty()
    } else {
        outward(e.drop_last()) + if_outward(e.last())
    }
}

/// An effect, where it is for others.
#[verifier::opaque]
pub open spec fn if_outward(e: EffectView) -> Seq<EffectView> {
    match e {
        EffectView::Terminal(_) => seq![e],
        EffectView::Answer(_) => seq![e],
        _ => Seq::empty(),
    }
}

fn push_outward(v: &mut Vec<Effect>, e: &Effect)
    ensures
        effect_views(final(v)@) == effect_views(old(v)@) + if_outward(e@),
{
    proof {
        reveal(if_outward);
    }
    match e {
        Effect::Terminal(b) => push_effect(v, Effect::Terminal(copy_bytes(b.as_slice()))),
        Effect::Answer(b) => push_effect(v, Effect::Answer(copy_bytes(b.as_slice()))),
        _ => {},
    }
    assert(effect_views(v@) =~= effect_views(old(v)@) + if_outward(e@));
}

fn push_effect(v: &mut Vec<Effect>, e: Effect)
    ensures
        effect_views(final(v)@) == effect_views(old(v)@).push(e@),
{
    let ghost was = effect_views(v@);
    v.push(e);
    assert(effect_views(v@) =~= was.push(e@));
}

fn push_step(v: &mut Vec<Effect>, s: &Step, connected: bool)
    ensures
        effect_views(final(v)@) == effect_views(old(v)@) + effects_of_step(s@, connected),
{
    let ghost was = effect_views(v@);
    if connected {
        if let Some(b) = s.tee() {
            push_effect(v, Effect::Terminal(copy_bytes(b)));
        }
    }
    match s {
        Step::Passthrough(b) => push_effect(v, Effect::Screen(copy_bytes(b.as_slice()))),
        Step::TerminalOnly(_) => {},
        Step::Image(_, i) => push_effect(v, Effect::Place(i.clone())),
        Step::Deferred(_, d) => {
            if let Some((bytes, px)) = finish_deferred(&d.payload, false) {
                let i = Image {
                    mime: String::from_str("image/png"),
                    bytes,
                    cells: d.cells,
                    px: Some(px),
                };
                assert(done(d@) == Some(i@));
                push_effect(v, Effect::Place(i));
            }
        },
        Step::Reject(b) => push_effect(v, Effect::Answer(copy_bytes(b.as_slice()))),
    }
    assert(effect_views(v@) =~= was + effects_of_step(s@, connected));
}

impl Mirror {
    /// What holds of every mirror.
    pub closed spec fn wf(&self) -> bool {
        &&& self.wrapped.wf()
        &&& self.interceptor.wf()
        &&& self.cell.0 > 0
        &&& self.cell.1 > 0
    }

    /// A mirror with a fresh screen, on a terminal whose cells have `cell` pixels. Images of the
    /// protocols that the terminal shows are taken out; those of others are text to it, and
    /// here too.
    pub fn new(rows: u16, cols: u16, cell: (u16, u16), shows: Protocols) -> (r: Mirror)
        requires
            cell.0 > 0,
            cell.1 > 0,
        ensures
            r.wf(),
            r@ == (MirrorState {
                screen: fresh_screen(most(rows as int, 1), most(cols as int, 1)),
                reads: Seq::empty(),
                interceptor: initial(shows.kitty, shows.iterm, shows.sixel, None, cell),
                images: Seq::empty(),
                marks: 0,
                connected: true,
                dirty: false,
                cell,
            }),
    {
        let r = Mirror {
            wrapped: WrappedScreen::new(rows, cols),
            parser: OutputParser::new(),
            interceptor: Interceptor::with(shows.kitty, shows.iterm, shows.sixel, None, cell),
            images: Vec::new(),
            marks: 0,
            notifier: Notifier::new(),
            dirty: false,
            cell,
        };
        assert(r@.images =~= Seq::<PlacedView>::empty());
        r
    }

    /// Take output of the command; what is to be done with it, in order.
    pub fn data(&mut self, chunk: &[u8]) -> (r: Vec<Effect>)
        requires
            old(self).wf(),
        ensures
            final(self).wf(),
            final(self)@ == old(self)@.took(chunk@),
            effect_views(r@) == effects_of(
                old(self)@.interceptor.fed(chunk@).1,
                old(self)@.connected,
            ),
    {
        let connected = self.notifier.is_connected();
        let steps = self.interceptor.feed(chunk);
        self.dirty = true;
        assert(self@ =~= old(self)@.took(chunk@));
        let ghost all = step_views(steps@);
        let mut out: Vec<Effect> = Vec::new();
        let mut i: usize = 0;
        assert(effect_views(out@) =~= effects_of(all.take(0), connected));
        while i < steps.len()
            invariant
                i <= steps@.len(),
                all == step_views(steps@),
                effect_views(out@) == effects_of(all.take(i as int), connected),
            decreases steps@.len() - i,
        {
            assert(all.take(i + 1).drop_last() =~= all.take(i as int));
            assert(all.take(i + 1).last() == steps@[i as int]@);
            push_step(&mut out, &steps[i], connected);
            i += 1;
        }
        assert(all.take(i as int) =~= all);
        out
    }

    fn record(&mut self, img: &Image) -> (r: char)
        requires
            old(self).wf(),
            img.bytes@.len() <= usize::MAX / 4,
        ensures
            final(self).wf(),
            final(self)@ == old(self)@.with_image(img@),
            r == mark_of(old(self)@.marks),
    {
        let ghost was = self@;
        let (row, col) = self.wrapped.screen.cursor_position();
        let cells = image_cells(img.cells, img.px, self.cell);
        let (cols, rows): (Option<u16>, Option<u16>) = match cells {
            Some((c, r)) => (Some(c), Some(r)),
            None => (None, None),
        };
        let mark = mark_for(self.marks);
        let data = standard_encode(img.bytes.as_slice());
        let p = Placed {
            mark,
            img: ImagePlacement {
                row: placed_row(row as i32),
                col,
                cols,
                rows,
                mime: img.mime.clone(),
                data: std::sync::Arc::new(data),
            },
        };
        let ghost v = PlacedView { mark: p.mark, img: p.img@ };
        self.images.push(p);
        assert(placed_views(self.images@) =~= was.images.push(v));
        assert(v == was.placed(img@));
        self.marks = if self.marks == u32::MAX {
            0
        } else {
            self.marks + 1
        };
        assert(self@ =~= was.with_image(img@));
        mark
    }

    fn stamp(&mut self, col: u16, n: u16, mark: char, row: u16)
        requires
            old(self).wf(),
        ensures
            final(self).wf(),
            final(self)@ == old(self)@.stamped(col as int, n as int, mark, row),
    {
        self.wrapped.screen.place_data(col, n, mark, row);
        assert(self@ =~= old(self)@.stamped(col as int, n as int, mark, row));
    }

    fn tag_rows(&mut self, at: Stamp)
        requires
            old(self).wf(),
            at.rows >= 1,
        ensures
            final(self).wf(),
            final(self)@ == old(self)@.tagged_rows(at, 0),
    {
        let ghost want = self@.tagged_rows(at, 0);
        let lf: [u8; 1] = [0x0a];
        assert(lf@ =~= seq![0x0au8]);
        let mut k: u16 = 0;
        while k + 1 < at.rows
            invariant
                self.wf(),
                k < at.rows,
                lf@ == seq![0x0au8],
                self@.tagged_rows(at, k as int) == want,
            decreases at.rows - k,
        {
            self.stamp(at.col, at.cols, at.mark, k);
            self.show(&lf);
            k += 1;
        }
        self.stamp(at.col, at.cols, at.mark, k);
    }

    /// The column that the character before the cursor stands in.
    fn last_col(&self) -> (r: u16)
        requires
            self.wf(),
        ensures
            r == self@.last_col(),
    {
        let (_, col) = self.wrapped.screen.cursor_position();
        if col == 0 {
            0
        } else {
            col - 1
        }
    }

    /// Place an image at the cursor, and draw it there.
    pub fn place(&mut self, img: &Image)
        requires
            old(self).wf(),
            img.bytes@.len() <= usize::MAX / 4,
        ensures
            final(self).wf(),
            final(self)@ == old(self)@.with_image(img@).drew(
                mark_of(old(self)@.marks),
                cells_of_image(img.cells, img.px, old(self)@.cell),
            ),
    {
        proof {
            reveal(MirrorState::drew);
        }
        let cells = image_cells(img.cells, img.px, self.cell);
        let mark = self.record(img);
        let mut text = String::new();
        text.push(mark);
        assert(text@ =~= seq![mark]);
        self.show(text.as_str().as_bytes());
        let col = self.last_col();
        match cells {
            Some((w, h)) => {
                let cr: [u8; 1] = [0x0d];
                assert(cr@ =~= seq![0x0du8]);
                self.show(&cr);
                let cols: u16 = if w == 0 {
                    1
                } else {
                    w
                };
                let rows: u16 = if h == 0 {
                    1
                } else {
                    h
                };
                self.tag_rows(Stamp { mark, col, cols, rows });
            },
            None => self.stamp(col, 1, mark, 0),
        }
    }

    /// Bytes for the screen.
    pub fn show(&mut self, bytes: &[u8])
        requires
            old(self).wf(),
        ensures
            final(self).wf(),
            final(self)@ == old(self)@.showed(bytes@),
    {
        self.parser.process(&mut self.wrapped, bytes);
        assert(self@ =~= old(self)@.showed(bytes@));
    }

    fn act(&mut self, e: &Effect)
        requires
            old(self).wf(),
        ensures
            final(self).wf(),
            final(self)@ == old(self)@.did(e@),
    {
        proof {
            reveal(MirrorState::did);
        }
        match e {
            Effect::Screen(b) => self.show(b.as_slice()),
            Effect::Place(img) => {
                if img.bytes.len() <= usize::MAX / 4 {
                    self.place(img);
                }
            },
            _ => {},
        }
    }

    /// Take output of the command: the screen shows it, and images are placed on it. What is
    /// left is for the terminal and for the command, in order.
    pub fn output(&mut self, chunk: &[u8]) -> (r: Vec<Effect>)
        requires
            old(self).wf(),
        ensures
            final(self).wf(),
            ({
                let e = effects_of(old(self)@.interceptor.fed(chunk@).1, old(self)@.connected);
                &&& final(self)@ == old(self)@.took(chunk@).did_all(e, 0)
                &&& effect_views(r@) == outward(e)
            }),
    {
        let all = self.data(chunk);
        let ghost e = effect_views(all@);
        let ghost want = self@.did_all(e, 0);
        let mut out: Vec<Effect> = Vec::new();
        let mut i: usize = 0;
        assert(effect_views(out@) =~= outward(e.take(0)));
        while i < all.len()
            invariant
                i <= all@.len(),
                e == effect_views(all@),
                self.wf(),
                self@.did_all(e, i as int) == want,
                effect_views(out@) == outward(e.take(i as int)),
            decreases all@.len() - i,
        {
            assert(e.take(i + 1).drop_last() =~= e.take(i as int));
            assert(e.take(i + 1).last() == e[i as int]);
            assert(e[i as int] == all@[i as int]@);
            push_outward(&mut out, &all[i]);
            self.act(&all[i]);
            i += 1;
        }
        assert(e.take(i as int) =~= e);
        out
    }

    /// The terminal has another size.
    pub fn resize(&mut self, rows: u16, cols: u16)
        requires
            old(self).wf(),
        ensures
            final(self).wf(),
            final(self)@ == (MirrorState {
                screen: old(self)@.screen.sized(rows as int, cols as int),
                dirty: true,
                ..old(self)@
            }),
    {
        self.wrapped.screen.set_size(rows, cols);
        self.dirty = true;
        assert(self@ =~= (MirrorState {
            screen: old(self)@.screen.sized(rows as int, cols as int),
            dirty: true,
            ..old(self)@
        }));
    }

    /// The hub is gone: what the terminal is sent, in its ordinary mode. Nothing where it shows
    /// a notice already.
    pub fn hub_down(&mut self, msg: &str) -> (r: Option<String>)
        requires
            old(self).wf(),
        ensures
            final(self).wf(),
            final(self)@ == (MirrorState { connected: false, ..old(self)@ }),
            r is Some <==> old(self)@.connected,
            r matches Some(t) ==> t@ == notice(msg@),
    {
        let r = self.notifier.hub_down(msg);
        assert(self@ =~= (MirrorState { connected: false, ..old(self)@ }));
        r
    }

    /// The hub is back: what the terminal is sent, in its raw mode, so that it shows the screen
    /// and takes input as the command wants it. Nothing where it shows the screen already.
    pub fn hub_up(&mut self) -> (r: Option<Vec<u8>>)
        requires
            old(self).wf(),
        ensures
            final(self).wf(),
            final(self)@ == (MirrorState {
                connected: true,
                dirty: old(self)@.dirty || !old(self)@.connected,
                ..old(self)@
            }),
            r is Some <==> !old(self)@.connected,
            r matches Some(b) ==> b@ == encode_utf8("\x1b[2J\x1b[H"@) + encode_utf8(
                whole_paint(old(self)@.screen),
            ) + encode_utf8(input_modes(old(self)@.screen)),
    {
        let ghost was = self@;
        if !self.notifier.hub_up() {
            assert(self@ =~= was);
            return None;
        }
        self.dirty = true;
        assert(self@ =~= (MirrorState { connected: true, dirty: true, ..was }));
        let mut out: Vec<u8> = Vec::new();
        push_bytes(&mut out, "\x1b[2J\x1b[H".as_bytes());
        let a = self.wrapped.screen.contents_formatted();
        push_bytes(&mut out, a.as_slice());
        let b = self.wrapped.screen.input_mode_formatted();
        push_bytes(&mut out, b.as_slice());
        assert(out@ =~= encode_utf8("\x1b[2J\x1b[H"@) + encode_utf8(whole_paint(was.screen))
            + encode_utf8(input_modes(was.screen)));
        Some(out)
    }

    /// Whether a frame is waiting, so that the next message is waited for no longer than until
    /// it is due.
    pub fn is_dirty(&self) -> (r: bool)
        ensures
            r == self@.dirty,
    {
        self.dirty
    }

    /// The next frame, where one is due `elapsed_ms` after the last. Images whose marks are gone
    /// are dropped.
    pub fn frame(&mut self, elapsed_ms: u64) -> (r: Option<Frame>)
        requires
            old(self).wf(),
        ensures
            final(self).wf(),
            r is Some <==> due(
                old(self)@.dirty,
                old(self)@.screen.modes.synchronized_update,
                elapsed_ms,
            ),
            r matches Some(f) ==> f@ == FrameView::Screen(
                framed(old(self)@.screen, old(self)@.images).0,
            ),
            final(self)@ == (if r is Some {
                MirrorState {
                    images: framed(old(self)@.screen, old(self)@.images).1,
                    dirty: false,
                    ..old(self)@
                }
            } else {
                old(self)@
            }),
    {
        if !frame_due(self.dirty, self.wrapped.screen.synchronized_update(), elapsed_ms) {
            return None;
        }
        let f = frame_from(&self.wrapped.screen, &mut self.images);
        self.dirty = false;
        assert(self@ =~= (MirrorState {
            images: framed(old(self)@.screen, old(self)@.images).1,
            dirty: false,
            ..old(self)@
        }));
        Some(f)
    }
}

/// The bytes that effects write to the terminal.
pub open spec fn to_terminal(e: Seq<EffectView>) -> Seq<u8>
    decreases e.len(),
{
    if e.len() == 0 {
        Seq::empty()
    } else {
        to_terminal(e.drop_last()) + (match e.last() {
            EffectView::Terminal(b) => b,
            _ => Seq::empty(),
        })
    }
}

proof fn lemma_to_terminal_adds(a: Seq<EffectView>, b: Seq<EffectView>)
    ensures
        to_terminal(a + b) == to_terminal(a) + to_terminal(b),
    decreases b.len(),
{
    if b.len() == 0 {
        assert(a + b =~= a);
        assert(to_terminal(a) + to_terminal(b) =~= to_terminal(a));
    } else {
        assert((a + b).drop_last() =~= a + b.drop_last());
        assert((a + b).last() == b.last());
        lemma_to_terminal_adds(a, b.drop_last());
        assert(to_terminal(a + b) =~= to_terminal(a) + to_terminal(b));
    }
}

proof fn lemma_step_to_terminal(s: StepView, connected: bool)
    ensures
        to_terminal(effects_of_step(s, connected)) == (if connected {
            shown(seq![s])
        } else {
            Seq::empty()
        }),
{
    let tee = match tee_of(s) {
        Some(b) => if connected {
            seq![EffectView::Terminal(b)]
        } else {
            Seq::empty()
        },
        None => Seq::empty(),
    };
    lemma_to_terminal_adds(tee, beside(s));
    let none = Seq::<EffectView>::empty();
    assert(to_terminal(none) == Seq::<u8>::empty());
    if beside(s).len() > 0 {
        assert(beside(s).drop_last() =~= none);
    } else {
        assert(beside(s) =~= none);
    }
    assert(to_terminal(beside(s)) =~= Seq::<u8>::empty());
    if tee.len() > 0 {
        assert(tee.drop_last() =~= none);
    } else {
        assert(tee =~= none);
    }
    lemma_shown_one(s);
    assert(to_terminal(effects_of_step(s, connected)) =~= (if connected {
        shown(seq![s])
    } else {
        Seq::empty()
    }));
}

/// The terminal is sent what the steps show on it, in order, and nothing while it shows a
/// notice.
pub proof fn law_terminal_gets_what_is_shown(steps: Seq<StepView>, connected: bool)
    ensures
        to_terminal(effects_of(steps, connected)) == (if connected {
            shown(steps)
        } else {
            Seq::empty()
        }),
    decreases steps.len(),
{
    if steps.len() > 0 {
        law_terminal_gets_what_is_shown(steps.drop_last(), connected);
        lemma_to_terminal_adds(
            effects_of(steps.drop_last(), connected),
            effects_of_step(steps.last(), connected),
        );
        lemma_step_to_terminal(steps.last(), connected);
        assert(steps =~= steps.drop_last() + seq![steps.last()]);
        lemma_shown_concat(steps.drop_last(), seq![steps.last()]);
        assert(to_terminal(effects_of(steps, connected)) =~= (if connected {
            shown(steps)
        } else {
            Seq::empty()
        }));
    }
}

// ---- an image is shown where it was put ----

/// Whether no cell of a screen bears a mark.
pub open spec fn unmarked(s: ScreenState, mark: char) -> bool {
    forall|r: int, c: int|
        0 <= r < s.grid.rows.len() && 0 <= c < s.grid.rows[r].cells.len() ==> !begins_with(
            (#[trigger] s.grid.rows[r].cells[c]).text,
            mark,
        )
}

/// Whether a text begins with a character.
pub open spec fn begins_with(t: Seq<char>, mark: char) -> bool {
    t.len() > 0 && t[0] == mark
}

/// How many cells stand before a column; the second column of a wide one is part of it.
pub open spec fn cells_before(cells: Seq<Glyph>, c: int) -> int {
    styled_row(cells, 0).len() - styled_row(cells, c).len()
}

proof fn lemma_written(cells: Seq<Glyph>, col: int, c: char, a: Attrs)
    requires
        0 <= col < cells.len(),
        !is_wide_char(c),
    ensures
        written(cells, col, c, a).len() == cells.len(),
        written(cells, col, c, a)[col].text == seq![c],
        !written(cells, col, c, a)[col].continuation,
        forall|i: int|
            0 <= i < cells.len() && i != col ==> (#[trigger] written(cells, col, c, a)[i]).text
                == cells[i].text || written(cells, col, c, a)[i].text.len() == 0,
{
    let t = unmended(cells, col, c, a);
    assert(t[col].text == seq![c]);
    assert(!is_half(t, col));
    assert forall|i: int| 0 <= i < cells.len() && i != col implies (#[trigger] written(
        cells,
        col,
        c,
        a,
    )[i]).text == cells[i].text || written(cells, col, c, a)[i].text.len() == 0 by {
        assert(t[i] == cells[i]);
    }
}

/// In a row whose cells before a column do not bear a mark, the search comes to that column.
proof fn lemma_search_reaches(cells: Seq<Glyph>, mark: char, c: int)
    requires
        0 <= c <= cells.len(),
        mark != ' ',
        forall|i: int| 0 <= i < c ==> !begins_with((#[trigger] cells[i]).text, mark),
    ensures
        0 <= cells_before(cells, c) <= styled_row(cells, 0).len(),
        styled_row(cells, 0).skip(cells_before(cells, c)) == styled_row(cells, c),
        mark_in_row(styled_row(cells, 0), mark, 0) == mark_in_row(
            styled_row(cells, 0),
            mark,
            cells_before(cells, c),
        ),
    decreases c,
{
    let all = styled_row(cells, 0);
    if c == 0 {
        assert(all.skip(0) =~= all);
    } else {
        lemma_search_reaches(cells, mark, c - 1);
        let k = cells_before(cells, c - 1);
        let rest = styled_row(cells, c - 1);
        reveal_strlit(" ");
        assert(!begins_with(cells[c - 1].text, mark));
        if !cells[c - 1].continuation {
            assert(rest[0] == styled_cell(cells[c - 1]));
            assert(all[k] == all.skip(k)[0]);
            assert(!bears(all[k], mark));
            assert(rest.skip(1) =~= styled_row(cells, c));
            assert(all.skip(k + 1) =~= all.skip(k).skip(1));
        }
    }
}

proof fn lemma_row_without_mark(cells: Seq<Glyph>, mark: char)
    requires
        mark != ' ',
        forall|i: int| 0 <= i < cells.len() ==> !begins_with((#[trigger] cells[i]).text, mark),
    ensures
        mark_in_row(styled_row(cells, 0), mark, 0) >= styled_row(cells, 0).len(),
{
    lemma_search_reaches(cells, mark, cells.len() as int);
}

proof fn lemma_mark_found_from(
    s: ScreenState,
    rows: Seq<Seq<CellView>>,
    mark: char,
    row: int,
    idx: int,
    r: int,
)
    requires
        0 <= r <= row < s.grid.rows.len(),
        rows.len() == s.grid.rows.len(),
        mark != ' ',
        unmarked(s, mark),
        forall|i: int| 0 <= i < row ==> #[trigger] rows[i] == styled_row(s.grid.rows[i].cells, 0),
        mark_in_row(rows[row], mark, 0) == idx,
        idx < rows[row].len(),
    ensures
        mark_from(rows, mark, r) == Some((row, idx)),
    decreases row - r,
{
    if r < row {
        let cells = s.grid.rows[r].cells;
        assert forall|i: int| 0 <= i < cells.len() implies !begins_with(
            (#[trigger] cells[i]).text,
            mark,
        ) by {
            assert(!begins_with(s.grid.rows[r].cells[i].text, mark));
        }
        lemma_row_without_mark(cells, mark);
        assert(rows[r] == styled_row(cells, 0));
        lemma_mark_found_from(s, rows, mark, row, idx, r + 1);
    }
}

/// An image that is placed with the cursor in a cell is shown there: its mark, printed as one
/// column wide, is found in the cursor's row, behind the cells that stand before the cursor.
pub proof fn law_placed_image_is_found(s: ScreenState, mark: char)
    requires
        s.ok(),
        s.grid.col < s.grid.ncols,
        !s.modes.insert,
        mark != ' ',
        unmarked(s, mark),
    ensures
        char_columns(mark) == Some(1usize) ==> ({
            let t = s.texted(mark);
            let cells = t.grid.rows[s.grid.row].cells;
            mark_from(shown_grid(t).rows, mark, 0) == Some(
                (s.grid.row, cells_before(cells, s.grid.col)),
            )
        }),
{
    if char_columns(mark) == Some(1usize) {
        let t = s.texted(mark);
        let row = s.grid.row;
        let col = s.grid.col;
        let old = s.grid.rows[row].cells;
        assert(old.len() == s.grid.ncols);
        lemma_written(old, col, mark, s.modes.attrs);
        let cells = t.grid.rows[row].cells;
        assert(cells == written(old, col, mark, s.modes.attrs));
        assert forall|i: int| 0 <= i < col implies !begins_with((#[trigger] cells[i]).text, mark) by {
            assert(!begins_with(s.grid.rows[row].cells[i].text, mark));
        }
        lemma_search_reaches(cells, mark, col);
        let idx = cells_before(cells, col);
        let all = styled_row(cells, 0);
        assert(styled_row(cells, col)[0] == styled_cell(cells[col]));
        assert(all.skip(idx)[0] == all[idx]);
        assert(bears(all[idx], mark));
        let rows = shown_grid(t).rows;
        assert(rows[row] == all);
        assert forall|i: int| 0 <= i < row implies #[trigger] rows[i] == styled_row(
            s.grid.rows[i].cells,
            0,
        ) by {
            assert(t.grid.rows[i] == s.grid.rows[i]);
        }
        lemma_mark_found_from(s, rows, mark, row, idx, 0);
    }
}

} // verus!
