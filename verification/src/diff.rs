//! Wire messages: full frames, changed rectangles and notices.
//!
//! A message carries cells by column: the texts of a run of cells, and the styles of
//! those cells that are not plain. A screen is sent whole when its size or its images
//! changed, and by its changed rectangles otherwise; both ends then show the same.
use crate::model::{
    blank_cell, clone_images, images_view, lemma_row_push, lemma_rows_push, plain_style, row_view, rows_view, CellStyle, CellView,
    Color, Frame, FrameView, Grid, GridView, ImagePlacement, PlacementView, StyledCell,
};
use crate::text::{chars_of, dec, dec_text, hex2, law_decimal_reads_back, parse_unsigned, push_dec, push_hex2, same_text};
use vstd::prelude::*;
use vstd::string::*;

verus! {

/// What one cell shows.
#[derive(Debug, PartialEq, Eq)]
pub enum Text {
    Blank,
    Glyph(String),
}

impl Text {
    /// The text of the cell.
    pub open spec fn chars(&self) -> Seq<char> {
        match self {
            Text::Blank => Seq::empty(),
            Text::Glyph(g) => g@,
        }
    }
}

/// A run of cells by column: every cell's text, and the styles that are not plain, each
/// with the place of its cell.
#[derive(Debug, PartialEq, Eq)]
pub struct CellBlock {
    pub text: Vec<Text>,
    pub style: Vec<(usize, CellStyle)>,
}

/// The model of [`CellBlock`]: `None` is a blank.
#[verifier::ext_equal]
pub ghost struct BlockView {
    pub text: Seq<Option<Seq<char>>>,
    pub style: Seq<(int, CellStyle)>,
}

/// The models of placed styles.
pub open spec fn style_views(s: Seq<(usize, CellStyle)>) -> Seq<(int, CellStyle)> {
    Seq::new(s.len(), |i: int| (s[i].0 as int, s[i].1))
}

impl View for CellBlock {
    type V = BlockView;

    open spec fn view(&self) -> BlockView {
        BlockView {
            text: Seq::new(
                self.text@.len(),
                |i: int|
                    match self.text@[i] {
                        Text::Blank => None,
                        Text::Glyph(g) => Some(g@),
                    },
            ),
            style: style_views(self.style@),
        }
    }
}

/// A changed rectangle of cells, row by row.
#[derive(Debug, PartialEq, Eq)]
pub struct WireRect {
    pub top: usize,
    pub left: usize,
    pub w: usize,
    pub h: usize,
    pub block: CellBlock,
}

/// The model of [`WireRect`].
#[verifier::ext_equal]
pub ghost struct RectView {
    pub top: int,
    pub left: int,
    pub w: int,
    pub h: int,
    pub block: BlockView,
}

impl View for WireRect {
    type V = RectView;

    open spec fn view(&self) -> RectView {
        RectView {
            top: self.top as int,
            left: self.left as int,
            w: self.w as int,
            h: self.h as int,
            block: self.block@,
        }
    }
}

/// One message.
#[derive(Debug, PartialEq, Eq)]
pub enum WireMsg {
    /// A whole screen.
    Full {
        w: u16,
        h: usize,
        cur: Option<(u16, u16)>,
        rows: Vec<CellBlock>,
        cursor_style: u8,
        images: Vec<ImagePlacement>,
    },
    /// What changed of a screen.
    Diff { cur: Option<(u16, u16)>, rects: Vec<WireRect>, cursor_style: u8 },
    /// A notice in place of a screen.
    Banner { html: String },
}

/// The model of [`WireMsg`].
pub ghost enum MsgView {
    Full {
        w: u16,
        h: int,
        cur: Option<(u16, u16)>,
        rows: Seq<BlockView>,
        cursor_style: u8,
        images: Seq<PlacementView>,
    },
    Diff { cur: Option<(u16, u16)>, rects: Seq<RectView>, cursor_style: u8 },
    Banner { html: Seq<char> },
}

/// The models of blocks.
pub open spec fn block_views(s: Seq<CellBlock>) -> Seq<BlockView> {
    Seq::new(s.len(), |i: int| s[i]@)
}

/// The models of rectangles.
pub open spec fn rect_views(s: Seq<WireRect>) -> Seq<RectView> {
    Seq::new(s.len(), |i: int| s[i]@)
}

impl View for WireMsg {
    type V = MsgView;

    open spec fn view(&self) -> MsgView {
        match self {
            WireMsg::Full { w, h, cur, rows, cursor_style, images } => MsgView::Full {
                w: *w,
                h: *h as int,
                cur: *cur,
                rows: block_views(rows@),
                cursor_style: *cursor_style,
                images: images_view(images@),
            },
            WireMsg::Diff { cur, rects, cursor_style } => MsgView::Diff {
                cur: *cur,
                rects: rect_views(rects@),
                cursor_style: *cursor_style,
            },
            WireMsg::Banner { html } => MsgView::Banner { html: html@ },
        }
    }
}

// ---- blocks ----

/// The styles of cells that are not plain, with the cells' places.
pub open spec fn sparse_styles(cells: Seq<CellView>) -> Seq<(int, CellStyle)>
    decreases cells.len(),
{
    if cells.len() == 0 {
        Seq::empty()
    } else {
        let before = sparse_styles(cells.drop_last());
        if cells.last().style == plain_style() {
            before
        } else {
            before.push((cells.len() - 1, cells.last().style))
        }
    }
}

/// A cell's text on the wire: a blank is `None`.
pub open spec fn wire_text(t: Seq<char>) -> Option<Seq<char>> {
    if t.len() == 0 {
        None
    } else {
        Some(t)
    }
}

/// Cells by column.
pub open spec fn block_of(cells: Seq<CellView>) -> BlockView {
    BlockView {
        text: Seq::new(cells.len(), |i: int| wire_text(cells[i].text)),
        style: sparse_styles(cells),
    }
}

/// The style given for the cell at `i`: the last one, or plain.
pub open spec fn style_at(style: Seq<(int, CellStyle)>, i: int) -> CellStyle
    decreases style.len(),
{
    if style.len() == 0 {
        plain_style()
    } else if style.last().0 == i {
        style.last().1
    } else {
        style_at(style.drop_last(), i)
    }
}

/// The cells of a block.
pub open spec fn decoded(b: BlockView) -> Seq<CellView> {
    Seq::new(
        b.text.len(),
        |i: int|
            CellView {
                text: match b.text[i] {
                    Some(t) => t,
                    None => Seq::empty(),
                },
                style: style_at(b.style, i),
            },
    )
}

proof fn lemma_style_at_sparse(cells: Seq<CellView>, i: int)
    requires
        0 <= i,
    ensures
        style_at(sparse_styles(cells), i) == (if i < cells.len() {
            cells[i].style
        } else {
            plain_style()
        }),
    decreases cells.len(),
{
    if cells.len() > 0 {
        lemma_style_at_sparse(cells.drop_last(), i);
        let s = sparse_styles(cells);
        let before = sparse_styles(cells.drop_last());
        if cells.last().style != plain_style() {
            assert(s.drop_last() =~= before);
        }
    }
}

/// Cells come back from their block as they were.
pub proof fn law_block_reads_back(cells: Seq<CellView>)
    ensures
        decoded(block_of(cells)) == cells,
{
    assert forall|i: int| 0 <= i < cells.len() implies decoded(block_of(cells))[i] == cells[i] by {
        lemma_style_at_sparse(cells, i);
        assert(cells[i].text.len() == 0 ==> cells[i].text =~= Seq::<char>::empty());
    }
    assert(decoded(block_of(cells)) =~= cells);
}

/// Whether a cell is plain text or a blank.
pub fn is_plain(c: &StyledCell) -> (r: bool)
    ensures
        r == (c@.style == plain_style()),
{
    c.style() == CellStyle::default()
}

/// A block with one more cell.
fn push_cell(b: &mut CellBlock, c: &StyledCell, Ghost(cells): Ghost<Seq<CellView>>)
    requires
        old(b)@ == block_of(cells),
    ensures
        final(b)@ == block_of(cells.push(c@)),
{
    let i: usize = b.text.len();
    let t = if c.text.as_str().is_empty() {
        Text::Blank
    } else {
        Text::Glyph(c.text.clone())
    };
    b.text.push(t);
    if !is_plain(c) {
        b.style.push((i, c.style()));
    }
    proof {
        assert(old(b)@.text.len() == cells.len());
        assert(cells.push(c@).drop_last() =~= cells);
        let before = old(b)@.text;
        assert(b@.text =~= before.push(wire_text(c@.text)));
        assert(before.push(wire_text(c@.text)) =~= block_of(cells.push(c@)).text);
        let styles = old(b)@.style;
        assert(b@.style =~= if c@.style == plain_style() {
            styles
        } else {
            styles.push((cells.len() as int, c@.style))
        });
        assert(b@.style =~= block_of(cells.push(c@)).style);
    }
}

fn empty_block() -> (b: CellBlock)
    ensures
        b@ == block_of(Seq::empty()),
{
    let b = CellBlock { text: Vec::new(), style: Vec::new() };
    assert(b@ =~= block_of(Seq::empty()));
    b
}

/// A row as a block.
pub fn cell_block(row: &Vec<StyledCell>) -> (b: CellBlock)
    ensures
        b@ == block_of(row_view(row@)),
{
    let mut b = empty_block();
    let mut i: usize = 0;
    assert(row_view(row@).take(0) =~= Seq::<CellView>::empty());
    while i < row.len()
        invariant
            i <= row@.len(),
            b@ == block_of(row_view(row@).take(i as int)),
        decreases row@.len() - i,
    {
        push_cell(&mut b, &row[i], Ghost(row_view(row@).take(i as int)));
        i += 1;
        assert(row_view(row@).take(i as int) =~= row_view(row@).take(i - 1).push(
            row@[i - 1]@,
        ));
    }
    assert(row_view(row@).take(i as int) =~= row_view(row@));
    b
}

/// The style given for the cell at `i`.
fn find_style(style: &Vec<(usize, CellStyle)>, i: usize) -> (r: CellStyle)
    ensures
        r == style_at(style_views(style@), i as int),
{
    let mut n: usize = style.len();
    let ghost all = style_views(style@);
    assert(all.take(n as int) =~= all);
    while n > 0
        invariant
            n <= style@.len(),
            all == style_views(style@),
            style_at(all, i as int) == style_at(all.take(n as int), i as int),
        decreases n,
    {
        n -= 1;
        assert(all.take(n + 1).drop_last() =~= all.take(n as int));
        if style[n].0 == i {
            return style[n].1;
        }
    }
    CellStyle::default()
}

/// The cells of a block.
pub fn decode_block(b: &CellBlock) -> (r: Vec<StyledCell>)
    ensures
        row_view(r@) == decoded(b@),
{
    let mut out: Vec<StyledCell> = Vec::new();
    let mut i: usize = 0;
    while i < b.text.len()
        invariant
            i <= b.text@.len(),
            row_view(out@) == decoded(b@).take(i as int),
        decreases b.text@.len() - i,
    {
        let t = match &b.text[i] {
            Text::Blank => String::new(),
            Text::Glyph(g) => g.clone(),
        };
        let c = StyledCell::styled(t, find_style(&b.style, i));
        proof {
            lemma_row_push(out@, c);
        }
        out.push(c);
        i += 1;
        assert(row_view(out@) =~= decoded(b@).take(i as int));
    }
    assert(decoded(b@).take(i as int) =~= decoded(b@));
    out
}

/// The place that a key of a style map names: its decimal digits, without a sign or
/// leading zeros.
pub fn style_index(key: &str) -> (r: Option<usize>)
    ensures
        r matches Some(i) ==> key@ == dec(i as nat),
        r is None ==> forall|i: usize| key@ != #[trigger] dec(i as nat),
{
    let cs = chars_of(key);
    match parse_unsigned(cs.as_slice(), usize::MAX as u64) {
        Some(v) => {
            let t = dec_text(v);
            let same = same_text(t.as_str(), key);
            proof {
                assert forall|i: usize| key@ == #[trigger] dec(i as nat) implies v == i by {
                    law_decimal_reads_back(i as nat, usize::MAX as nat);
                }
            }
            if same {
                Some(v as usize)
            } else {
                None
            }
        },
        None => {
            proof {
                assert forall|i: usize| key@ != #[trigger] dec(i as nat) by {
                    law_decimal_reads_back(i as nat, usize::MAX as nat);
                }
            }
            None
        },
    }
}

// ---- changed rectangles ----

/// The cell at `i`: a blank past the end of the row.
pub open spec fn cell_at(row: Seq<CellView>, i: int) -> CellView {
    if 0 <= i < row.len() {
        row[i]
    } else {
        blank_cell()
    }
}

/// Whether two rows look the same: they differ at most in blanks at the end.
pub open spec fn rows_alike(a: Seq<CellView>, b: Seq<CellView>) -> bool {
    forall|i: int| 0 <= i ==> #[trigger] cell_at(a, i) == cell_at(b, i)
}

/// The first place from `i` on, before `n`, at which two rows differ; `n` where there is none.
pub open spec fn first_change(a: Seq<CellView>, b: Seq<CellView>, i: int, n: int) -> int
    decreases n - i,
{
    if i < n && cell_at(a, i) == cell_at(b, i) {
        first_change(a, b, i + 1, n)
    } else {
        i
    }
}

/// The last place before `n` at which two rows differ; `-1` where there is none.
pub open spec fn last_change(a: Seq<CellView>, b: Seq<CellView>, n: int) -> int
    decreases n,
{
    if 0 < n && cell_at(a, n - 1) == cell_at(b, n - 1) {
        last_change(a, b, n - 1)
    } else {
        n - 1
    }
}

/// The length of the longer row.
pub open spec fn longer(a: Seq<CellView>, b: Seq<CellView>) -> int {
    if a.len() > b.len() {
        a.len() as int
    } else {
        b.len() as int
    }
}

/// The first and the last place at which two rows differ.
pub open spec fn span_of(a: Seq<CellView>, b: Seq<CellView>) -> Option<(int, int)> {
    let n = longer(a, b);
    if first_change(a, b, 0, n) < n {
        Some((first_change(a, b, 0, n), last_change(a, b, n)))
    } else {
        None
    }
}

proof fn lemma_first_change(a: Seq<CellView>, b: Seq<CellView>, i: int, n: int)
    requires
        0 <= i <= n,
    ensures
        i <= first_change(a, b, i, n) <= n,
        forall|j: int| i <= j < first_change(a, b, i, n) ==> #[trigger] cell_at(a, j) == cell_at(b, j),
        first_change(a, b, i, n) < n ==> cell_at(a, first_change(a, b, i, n)) != cell_at(
            b,
            first_change(a, b, i, n),
        ),
    decreases n - i,
{
    if i < n && cell_at(a, i) == cell_at(b, i) {
        lemma_first_change(a, b, i + 1, n);
    }
}

proof fn lemma_last_change(a: Seq<CellView>, b: Seq<CellView>, n: int)
    requires
        0 <= n,
    ensures
        -1 <= last_change(a, b, n) < n || n == 0,
        forall|j: int| last_change(a, b, n) < j < n ==> #[trigger] cell_at(a, j) == cell_at(b, j),
        0 <= last_change(a, b, n) < n ==> cell_at(a, last_change(a, b, n)) != cell_at(
            b,
            last_change(a, b, n),
        ),
    decreases n,
{
    if 0 < n && cell_at(a, n - 1) == cell_at(b, n - 1) {
        lemma_last_change(a, b, n - 1);
    }
}

/// A span is what changed: the cells outside are the same, those at its ends differ, and
/// without one the rows look the same.
pub proof fn law_span_is_what_changed(a: Seq<CellView>, b: Seq<CellView>)
    ensures
        span_of(a, b) is None <==> rows_alike(a, b),
        span_of(a, b) matches Some((lo, hi)) ==> {
            &&& 0 <= lo <= hi < longer(a, b)
            &&& cell_at(a, lo) != cell_at(b, lo)
            &&& cell_at(a, hi) != cell_at(b, hi)
            &&& forall|i: int| 0 <= i && !(lo <= i <= hi) ==> #[trigger] cell_at(a, i) == cell_at(b, i)
        },
{
    let n = longer(a, b);
    lemma_first_change(a, b, 0, n);
    lemma_last_change(a, b, n);
    let lo = first_change(a, b, 0, n);
    let hi = last_change(a, b, n);
    if lo < n {
        if hi < lo {
            assert(cell_at(a, lo) == cell_at(b, lo));
        }
        assert(!rows_alike(a, b));
        assert forall|i: int| 0 <= i && !(lo <= i <= hi) implies #[trigger] cell_at(a, i) == cell_at(
            b,
            i,
        ) by {
            if i >= n {
            }
        }
    } else {
        assert forall|i: int| 0 <= i implies #[trigger] cell_at(a, i) == cell_at(b, i) by {
            if i >= n {
            }
        }
    }
}

fn same_at(a: &Vec<StyledCell>, b: &Vec<StyledCell>, i: usize) -> (r: bool)
    ensures
        r == (cell_at(row_view(a@), i as int) == cell_at(row_view(b@), i as int)),
{
    if i < a.len() && i < b.len() {
        a[i].same(&b[i])
    } else if i < a.len() {
        a[i].same(&StyledCell::default())
    } else if i < b.len() {
        b[i].same(&StyledCell::default())
    } else {
        true
    }
}

/// A span in whole numbers.
pub open spec fn span_view(s: Option<(usize, usize)>) -> Option<(int, int)> {
    match s {
        Some((lo, hi)) => Some((lo as int, hi as int)),
        None => None,
    }
}

/// The first and the last place at which two rows differ.
pub fn row_span(old: &Vec<StyledCell>, new: &Vec<StyledCell>) -> (r: Option<(usize, usize)>)
    ensures
        span_view(r) == span_of(row_view(old@), row_view(new@)),
{
    let ghost a = row_view(old@);
    let ghost b = row_view(new@);
    let n: usize = if old.len() > new.len() {
        old.len()
    } else {
        new.len()
    };
    let mut lo: usize = 0;
    while lo < n && same_at(old, new, lo)
        invariant
            lo <= n,
            a == row_view(old@),
            b == row_view(new@),
            first_change(a, b, 0, n as int) == first_change(a, b, lo as int, n as int),
        decreases n - lo,
    {
        lo += 1;
    }
    if lo >= n {
        return None;
    }
    let mut m: usize = n;
    while m > 0 && same_at(old, new, (m - 1) as usize)
        invariant
            m <= n,
            a == row_view(old@),
            b == row_view(new@),
            last_change(a, b, n as int) == last_change(a, b, m as int),
        decreases m,
    {
        m -= 1;
    }
    proof {
        law_span_is_what_changed(a, b);
    }
    Some((lo, (m - 1) as usize))
}

fn is_span(s: Option<(usize, usize)>, lo: usize, hi: usize) -> (r: bool)
    ensures
        r == (s == Some((lo, hi))),
{
    match s {
        Some((l, h)) => l == lo && h == hi,
        None => false,
    }
}

/// The spans of two screens, row by row.
pub open spec fn spans_of(a: Seq<Seq<CellView>>, b: Seq<Seq<CellView>>) -> Seq<Option<(int, int)>> {
    Seq::new(
        if a.len() < b.len() {
            a.len()
        } else {
            b.len()
        },
        |i: int| span_of(a[i], b[i]),
    )
}

/// The end of the run of rows from `r` on that have the span of row `r`.
pub open spec fn run_end(spans: Seq<Option<(int, int)>>, r: int) -> int
    decreases spans.len() - r,
{
    if 0 <= r && r + 1 < spans.len() && spans[r + 1] == spans[r] {
        run_end(spans, r + 1)
    } else {
        r + 1
    }
}

/// The cells of a rectangle, row by row.
pub open spec fn rect_cells(
    rows: Seq<Seq<CellView>>,
    top: int,
    left: int,
    w: int,
    h: int,
) -> Seq<CellView> {
    Seq::new((h * w) as nat, |k: int| cell_at(rows[top + k / w], left + k % w))
}

/// A rectangle of a screen.
pub open spec fn rect_of(rows: Seq<Seq<CellView>>, top: int, left: int, w: int, h: int) -> RectView {
    RectView { top, left, w, h, block: block_of(rect_cells(rows, top, left, w, h)) }
}

/// The changed rectangles from row `r` on: one for each longest run of rows with one span.
pub open spec fn rects_from(
    spans: Seq<Option<(int, int)>>,
    rows: Seq<Seq<CellView>>,
    r: int,
) -> Seq<RectView>
    decreases spans.len() - r,
{
    if !(0 <= r < spans.len()) {
        Seq::empty()
    } else {
        match spans[r] {
            None => rects_from(spans, rows, r + 1),
            Some((lo, hi)) => {
                let end = run_end(spans, r);
                if r < end <= spans.len() {
                    seq![rect_of(rows, r, lo, hi - lo + 1, end - r)] + rects_from(spans, rows, end)
                } else {
                    Seq::empty()
                }
            },
        }
    }
}

proof fn lemma_run_end(spans: Seq<Option<(int, int)>>, r: int)
    requires
        0 <= r < spans.len(),
    ensures
        r < run_end(spans, r) <= spans.len(),
        forall|i: int| r <= i < run_end(spans, r) ==> #[trigger] spans[i] == spans[r],
    decreases spans.len() - r,
{
    if r + 1 < spans.len() && spans[r + 1] == spans[r] {
        lemma_run_end(spans, r + 1);
    }
}

/// The changed rectangles between two screens.
pub open spec fn rects_of(old: Seq<Seq<CellView>>, new: Seq<Seq<CellView>>) -> Seq<RectView> {
    rects_from(spans_of(old, new), new, 0)
}

fn rect_block(rows: &Vec<Vec<StyledCell>>, top: usize, end: usize, lo: usize, hi: usize) -> (b:
    CellBlock)
    requires
        top < end <= rows@.len(),
        lo <= hi < usize::MAX,
    ensures
        b@ == block_of(
            rect_cells(rows_view(rows@), top as int, lo as int, hi - lo + 1, end - top),
        ),
{
    let ghost all = rows_view(rows@);
    let ghost w = hi - lo + 1;
    let ghost want = rect_cells(all, top as int, lo as int, w, end - top);
    let ghost mut got: Seq<CellView> = Seq::empty();
    let mut b = empty_block();
    let blank = StyledCell::default();
    let mut r: usize = top;
    proof {
        assert(0 <= (end - top) * w) by (nonlinear_arith)
            requires
                top < end,
                w >= 1,
        ;
        assert(got =~= want.take(0));
    }
    while r < end
        invariant
            top <= r <= end <= rows@.len(),
            lo <= hi < usize::MAX,
            w == hi - lo + 1,
            all == rows_view(rows@),
            want == rect_cells(all, top as int, lo as int, w, end - top),
            0 <= (r - top) * w <= (end - top) * w,
            got == want.take((r - top) * w),
            b@ == block_of(got),
            blank@ == blank_cell(),
        decreases end - r,
    {
        let mut i: usize = lo;
        let ghost base = (r - top) * w;
        proof {
            assert(base + w <= (end - top) * w && base + w == (r + 1 - top) * w) by (nonlinear_arith)
                requires
                    r < end,
                    top <= r,
                    w >= 1,
                    base == (r - top) * w,
            ;
        }
        while i <= hi
            invariant
                top <= r < end <= rows@.len(),
                lo <= i <= hi + 1,
                hi < usize::MAX,
                w == hi - lo + 1,
                all == rows_view(rows@),
                want == rect_cells(all, top as int, lo as int, w, end - top),
                base == (r - top) * w,
                0 <= base,
                base + w <= (end - top) * w,
                got == want.take(base + (i - lo)),
                b@ == block_of(got),
                blank@ == blank_cell(),
            decreases hi + 1 - i,
        {
            let c = if i < rows[r].len() {
                &rows[r][i]
            } else {
                &blank
            };
            push_cell(&mut b, c, Ghost(got));
            proof {
                let k = base + (i - lo);
                assert(k / w == r - top && k % w == i - lo) by (nonlinear_arith)
                    requires
                        k == (r - top) * w + (i - lo),
                        0 <= i - lo < w,
                ;
                assert(k < want.len());
                assert(want[k] == cell_at(all[r as int], i as int));
                assert(all[r as int] == row_view(rows@[r as int]@));
                assert(c@ == want[k]);
                got = got.push(c@);
                assert(got =~= want.take(k + 1));
            }
            i += 1;
        }
        r += 1;
    }
    assert(want.take((end - top) * w) =~= want);
    b
}

/// The changed rectangles between two screens: each row's changed span, with runs of rows
/// of one span put together.
pub fn grid_rects(old: &Grid, new: &Grid) -> (r: Vec<WireRect>)
    ensures
        rect_views(r@) == rects_of(old@.rows, new@.rows),
{
    let ghost a = old@.rows;
    let ghost c = new@.rows;
    let ghost want = spans_of(a, c);
    let n: usize = if old.rows.len() < new.rows.len() {
        old.rows.len()
    } else {
        new.rows.len()
    };
    let mut spans: Vec<Option<(usize, usize)>> = Vec::new();
    let mut k: usize = 0;
    while k < n
        invariant
            k <= n <= old.rows@.len(),
            n <= new.rows@.len(),
            n == want.len(),
            want == spans_of(old@.rows, new@.rows),
            spans@.len() == k,
            forall|j: int| 0 <= j < k ==> span_view(#[trigger] spans@[j]) == want[j],
            forall|j: int|
                0 <= j < k ==> (#[trigger] spans@[j] matches Some((lo, hi)) ==> lo <= hi < usize::MAX),
        decreases n - k,
    {
        let s = row_span(&old.rows[k], &new.rows[k]);
        proof {
            let x = row_view(old.rows@[k as int]@);
            let y = row_view(new.rows@[k as int]@);
            assert(old@.rows[k as int] == x && new@.rows[k as int] == y);
            law_span_is_what_changed(x, y);
            if let Some((lo, hi)) = s {
                assert(span_of(x, y) == Some((lo as int, hi as int)));
                assert(hi < longer(x, y));
                assert(old.rows@[k as int].len() == x.len());
                assert(new.rows@[k as int].len() == y.len());
                assert(lo <= hi < usize::MAX);
            }
        }
        spans.push(s);
        k += 1;
    }
    let mut out: Vec<WireRect> = Vec::new();
    let mut r: usize = 0;
    assert(rect_views(out@) + rects_from(want, c, 0) =~= rects_from(want, c, 0));
    while r < n
        invariant
            r <= n <= new.rows@.len(),
            n == want.len(),
            n == spans@.len(),
            c == rows_view(new.rows@),
            forall|j: int| 0 <= j < n ==> span_view(#[trigger] spans@[j]) == want[j],
            forall|j: int|
                0 <= j < n ==> (#[trigger] spans@[j] matches Some((lo, hi)) ==> lo <= hi < usize::MAX),
            rect_views(out@) + rects_from(want, c, r as int) == rects_from(want, c, 0),
        decreases n - r,
    {
        assert(span_view(spans@[r as int]) == want[r as int]);
        let ghost before = rect_views(out@);
        match spans[r] {
            None => {
                r += 1;
            },
            Some((lo, hi)) => {
                let mut end: usize = r + 1;
                while end < n && is_span(spans[end], lo, hi)
                    invariant
                        r < end <= n,
                        n == want.len(),
                        n == spans@.len(),
                        spans@[r as int] == Some((lo, hi)),
                        forall|j: int| 0 <= j < n ==> span_view(#[trigger] spans@[j]) == want[j],
                        want[end - 1] == want[r as int],
                        run_end(want, r as int) == run_end(want, end - 1),
                    decreases n - end,
                {
                    assert(span_view(spans@[end as int]) == want[end as int]);
                    assert(span_view(spans@[r as int]) == want[r as int]);
                    end += 1;
                }
                proof {
                    if end < n {
                        assert(span_view(spans@[end as int]) == want[end as int]);
                    }
                    assert(run_end(want, r as int) == end);
                }
                let block = rect_block(&new.rows, r, end, lo, hi);
                let rect = WireRect { top: r, left: lo, w: hi - lo + 1, h: end - r, block };
                assert(rect@ =~= rect_of(c, r as int, lo as int, hi - lo + 1, end - r));
                out.push(rect);
                proof {
                    assert(rect_views(out@) =~= before.push(rect@));
                    assert(rect_views(out@) + rects_from(want, c, end as int) =~= before + (seq![
                        rect@,
                    ] + rects_from(want, c, end as int)));
                }
                r = end;
            },
        }
    }
    assert(rect_views(out@) + rects_from(want, c, n as int) =~= rect_views(out@));
    out
}

// ---- messages ----

/// The message for a whole screen.
pub open spec fn full_of(g: GridView) -> MsgView {
    MsgView::Full {
        w: g.cols,
        h: g.rows.len() as int,
        cur: g.cursor,
        rows: Seq::new(g.rows.len(), |i: int| block_of(g.rows[i])),
        cursor_style: g.cursor_style,
        images: g.images,
    }
}

/// The message for a whole frame.
pub open spec fn full_frame(f: FrameView) -> MsgView {
    match f {
        FrameView::Screen(g) => full_of(g),
        FrameView::Banner(html) => MsgView::Banner { html },
    }
}

/// Whether a screen can be sent by its changes: the size and the images are the same.
pub open spec fn layout_kept(a: GridView, b: GridView) -> bool {
    a.cols == b.cols && a.rows.len() == b.rows.len() && a.images == b.images
}

/// The message for what changed of a screen; none where nothing did.
pub open spec fn diff_of(a: GridView, b: GridView) -> Option<MsgView> {
    let rects = rects_of(a.rows, b.rows);
    if rects.len() == 0 && a.cursor == b.cursor && a.cursor_style == b.cursor_style {
        None
    } else {
        Some(MsgView::Diff { cur: b.cursor, rects, cursor_style: b.cursor_style })
    }
}

/// The message that takes a viewer from one frame to the next; none where both look the same.
pub open spec fn delta_of(cur: FrameView, next: FrameView) -> Option<MsgView> {
    match (cur, next) {
        (FrameView::Banner(a), FrameView::Banner(b)) => if a == b {
            None
        } else {
            Some(full_frame(next))
        },
        (FrameView::Screen(a), FrameView::Screen(b)) => if layout_kept(a, b) {
            diff_of(a, b)
        } else {
            Some(full_frame(next))
        },
        _ => Some(full_frame(next)),
    }
}

fn same_images(a: &Vec<ImagePlacement>, b: &Vec<ImagePlacement>) -> (r: bool)
    ensures
        r == (images_view(a@) == images_view(b@)),
{
    if a.len() != b.len() {
        assert(images_view(a@).len() != images_view(b@).len());
        return false;
    }
    let mut i: usize = 0;
    while i < a.len()
        invariant
            a@.len() == b@.len(),
            i <= a@.len(),
            forall|j: int| 0 <= j < i ==> images_view(a@)[j] == images_view(b@)[j],
        decreases a@.len() - i,
    {
        if !a[i].same(&b[i]) {
            assert(images_view(a@)[i as int] != images_view(b@)[i as int]);
            return false;
        }
        i += 1;
    }
    assert(images_view(a@) =~= images_view(b@));
    true
}

/// Whether a screen can be sent by its changes.
pub fn same_layout(a: &Grid, b: &Grid) -> (r: bool)
    ensures
        r == layout_kept(a@, b@),
{
    a.cols == b.cols && a.rows.len() == b.rows.len() && same_images(&a.images, &b.images)
}

/// The message for a whole screen.
fn full_grid(g: &Grid) -> (m: WireMsg)
    ensures
        m@ == full_of(g@),
{
    let mut rows: Vec<CellBlock> = Vec::new();
    let mut i: usize = 0;
    let ghost want = full_of(g@)->rows;
    while i < g.rows.len()
        invariant
            i <= g.rows@.len(),
            want == Seq::new(g@.rows.len(), |j: int| block_of(g@.rows[j])),
            block_views(rows@) == want.take(i as int),
        decreases g.rows@.len() - i,
    {
        let b = cell_block(&g.rows[i]);
        let ghost before = rows@;
        rows.push(b);
        i += 1;
        assert(block_views(rows@) =~= block_views(before).push(b@));
        assert(block_views(rows@) =~= want.take(i as int));
    }
    assert(want.take(i as int) =~= want);
    WireMsg::Full {
        w: g.cols,
        h: g.rows.len(),
        cur: g.cursor,
        rows,
        cursor_style: g.cursor_style,
        images: clone_images(&g.images),
    }
}

/// The message for a whole frame.
pub fn full(frame: &Frame) -> (m: WireMsg)
    ensures
        m@ == full_frame(frame@),
{
    match frame {
        Frame::Screen(g) => full_grid(g),
        Frame::Banner(html) => WireMsg::Banner { html: html.clone() },
    }
}

/// The model of an optional message.
pub open spec fn msg_view(m: Option<WireMsg>) -> Option<MsgView> {
    match m {
        Some(m) => Some(m@),
        None => None,
    }
}

fn same_cursor(a: Option<(u16, u16)>, b: Option<(u16, u16)>) -> (r: bool)
    ensures
        r == (a == b),
{
    match (a, b) {
        (Some((r, c)), Some((s, d))) => r == s && c == d,
        (None, None) => true,
        _ => false,
    }
}

/// The message for what changed between two screens of one layout.
pub fn diff_grids(a: &Grid, b: &Grid) -> (m: Option<WireMsg>)
    ensures
        msg_view(m) == diff_of(a@, b@),
{
    let rects = grid_rects(a, b);
    assert(rect_views(rects@).len() == rects@.len());
    if rects.len() == 0 && same_cursor(a.cursor, b.cursor) && a.cursor_style == b.cursor_style {
        return None;
    }
    Some(WireMsg::Diff { cur: b.cursor, rects, cursor_style: b.cursor_style })
}

/// The message that takes a viewer from one frame to the next.
pub fn delta(cur: &Frame, next: &Frame) -> (m: Option<WireMsg>)
    ensures
        msg_view(m) == delta_of(cur@, next@),
{
    match (cur, next) {
        (Frame::Banner(a), Frame::Banner(b)) => {
            if same_text(a.as_str(), b.as_str()) {
                None
            } else {
                Some(full(next))
            }
        },
        (Frame::Screen(a), Frame::Screen(b)) => {
            if same_layout(a, b) {
                diff_grids(a, b)
            } else {
                Some(full(next))
            }
        },
        _ => Some(full(next)),
    }
}

// ---- applying ----

/// A row with `w` cells from `left` on replaced by those of `cells` from `base` on. Where
/// `cells` has none a blank comes in; a short row is filled up with blanks.
pub open spec fn row_patched(
    row: Seq<CellView>,
    left: int,
    w: int,
    cells: Seq<CellView>,
    base: int,
) -> Seq<CellView> {
    if w <= 0 {
        row
    } else {
        Seq::new(
            if row.len() > left + w {
                row.len()
            } else {
                (left + w) as nat
            },
            |i: int|
                if left <= i < left + w {
                    cell_at(cells, base + (i - left))
                } else {
                    cell_at(row, i)
                },
        )
    }
}

/// Rows with a rectangle put on them. What lies below the last row is left out.
pub open spec fn rect_applied(rows: Seq<Seq<CellView>>, r: RectView) -> Seq<Seq<CellView>> {
    Seq::new(
        rows.len(),
        |y: int|
            if r.top <= y < r.top + r.h {
                row_patched(rows[y], r.left, r.w, decoded(r.block), (y - r.top) * r.w)
            } else {
                rows[y]
            },
    )
}

/// Rows with rectangles put on them in turn.
pub open spec fn rects_applied(rows: Seq<Seq<CellView>>, rects: Seq<RectView>) -> Seq<Seq<CellView>>
    decreases rects.len(),
{
    if rects.len() == 0 {
        rows
    } else {
        rects_applied(rect_applied(rows, rects[0]), rects.drop_first())
    }
}

/// Whether a row can be as long as each rectangle makes it.
pub open spec fn rects_fit(rects: Seq<RectView>) -> bool {
    forall|i: int| 0 <= i < rects.len() ==> (#[trigger] rects[i]).left + rects[i].w <= usize::MAX
}

/// The frame that a message leads to. There is none for changes to a notice, which has no
/// cells, nor for a rectangle that no row can hold.
pub open spec fn applied(prev: FrameView, msg: MsgView) -> Option<FrameView> {
    match msg {
        MsgView::Full { w, h, cur, rows, cursor_style, images } => Some(
            FrameView::Screen(
                GridView {
                    cols: w,
                    rows: Seq::new(rows.len(), |i: int| decoded(rows[i])),
                    cursor: cur,
                    cursor_style,
                    images,
                },
            ),
        ),
        MsgView::Banner { html } => Some(FrameView::Banner(html)),
        MsgView::Diff { cur, rects, cursor_style } => match prev {
            FrameView::Banner(_) => None,
            FrameView::Screen(g) => if rects_fit(rects) {
                Some(
                    FrameView::Screen(
                        GridView { rows: rects_applied(g.rows, rects), cursor: cur, cursor_style, ..g },
                    ),
                )
            } else {
                None
            },
        },
    }
}

/// One row of a rectangle put on a row.
fn patch_row(row: &Vec<StyledCell>, rect: &WireRect, cells: &Vec<StyledCell>, dy: usize) -> (r: Vec<
    StyledCell,
>)
    requires
        rect.left + rect.w <= usize::MAX,
        0 < rect.w,
    ensures
        row_view(r@) == row_patched(
            row_view(row@),
            rect.left as int,
            rect.w as int,
            row_view(cells@),
            dy * rect.w,
        ),
{
    let end: usize = rect.left + rect.w;
    let n: usize = if row.len() > end {
        row.len()
    } else {
        end
    };
    let ghost base = dy * rect.w;
    let ghost want = row_patched(
        row_view(row@),
        rect.left as int,
        rect.w as int,
        row_view(cells@),
        base,
    );
    let mut out: Vec<StyledCell> = Vec::new();
    let mut i: usize = 0;
    assert(row_view(out@) =~= want.take(0));
    proof {
        assert(0 <= base <= usize::MAX * usize::MAX) by (nonlinear_arith)
            requires
                base == dy * rect.w,
                0 <= dy <= usize::MAX,
                0 <= rect.w <= usize::MAX,
        ;
        assert(usize::MAX * usize::MAX + usize::MAX <= u128::MAX) by (nonlinear_arith)
            requires
                usize::MAX <= 0xffff_ffff_ffff_ffff,
                0 <= usize::MAX,
        ;
    }
    let at0: u128 = dy as u128 * rect.w as u128;
    while i < n
        invariant
            i <= n,
            n == want.len(),
            end == rect.left + rect.w,
            0 < rect.w,
            at0 == base,
            at0 + usize::MAX <= u128::MAX,
            want == row_patched(
                row_view(row@),
                rect.left as int,
                rect.w as int,
                row_view(cells@),
                base,
            ),
            row_view(out@) == want.take(i as int),
        decreases n - i,
    {
        let c = if rect.left <= i && i < end {
            let at: u128 = at0 + (i - rect.left) as u128;
            if at < cells.len() as u128 {
                cells[at as usize].clone()
            } else {
                StyledCell::default()
            }
        } else if i < row.len() {
            row[i].clone()
        } else {
            StyledCell::default()
        };
        proof {
            lemma_row_push(out@, c);
        }
        out.push(c);
        i += 1;
        assert(row_view(out@) =~= want.take(i as int));
    }
    assert(want.take(n as int) =~= want);
    out
}

fn apply_rect(rows: &mut Vec<Vec<StyledCell>>, rect: &WireRect)
    requires
        rect.left + rect.w <= usize::MAX,
    ensures
        rows_view(final(rows)@) == rect_applied(rows_view(old(rows)@), rect@),
{
    let ghost was = rows_view(rows@);
    let ghost want = rect_applied(was, rect@);
    if rect.w == 0 || rect.h == 0 {
        assert(rows_view(rows@) =~= want);
        return;
    }
    let cells = decode_block(&rect.block);
    let mut y: usize = rect.top;
    let n: usize = rows.len();
    while y < n && y - rect.top < rect.h
        invariant
            rect.top <= y,
            y <= n || y == rect.top,
            rect.left + rect.w <= usize::MAX,
            0 < rect.w,
            y - rect.top <= rect.h,
            n == rows@.len(),
            n == was.len(),
            want == rect_applied(was, rect@),
            row_view(cells@) == decoded(rect.block@),
            forall|j: int|
                0 <= j < n ==> #[trigger] rows_view(rows@)[j] == (if j < y {
                    want[j]
                } else {
                    was[j]
                }),
        decreases n - y,
    {
        let ghost before = rows_view(rows@);
        assert(before[y as int] == was[y as int]);
        let r = patch_row(&rows[y], rect, &cells, y - rect.top);
        rows.set(y, r);
        assert forall|j: int| 0 <= j < n implies #[trigger] rows_view(rows@)[j] == (if j < y + 1 {
            want[j]
        } else {
            was[j]
        }) by {
            if j != y {
                assert(rows_view(rows@)[j] == before[j]);
            } else {
                assert(want[j] == row_view(r@));
            }
        }
        y += 1;
    }
    assert(rows_view(rows@) =~= want);
}

fn all_fit(rects: &Vec<WireRect>) -> (r: bool)
    ensures
        r == rects_fit(rect_views(rects@)),
{
    let ghost all = rect_views(rects@);
    let mut k: usize = 0;
    while k < rects.len()
        invariant
            k <= rects@.len(),
            all == rect_views(rects@),
            forall|j: int| 0 <= j < k ==> (#[trigger] all[j]).left + all[j].w <= usize::MAX,
        decreases rects@.len() - k,
    {
        if rects[k].w > usize::MAX - rects[k].left {
            assert(all[k as int].left + all[k as int].w > usize::MAX);
            return false;
        }
        k += 1;
    }
    true
}

/// Apply a message to a frame: the next frame, or `None` where the message cannot be
/// applied and is to be dropped.
pub fn apply_wire(prev: &Frame, msg: &WireMsg) -> (r: Option<Frame>)
    ensures
        r is Some <==> applied(prev@, msg@) is Some,
        r matches Some(f) ==> applied(prev@, msg@) == Some(f@),
{
    match msg {
        WireMsg::Full { w, h, cur, rows, cursor_style, images } => {
            let mut out: Vec<Vec<StyledCell>> = Vec::new();
            let mut i: usize = 0;
            let ghost want = Seq::new(rows@.len(), |j: int| decoded(rows@[j]@));
            while i < rows.len()
                invariant
                    i <= rows@.len(),
                    want == Seq::new(rows@.len(), |j: int| decoded(rows@[j]@)),
                    rows_view(out@) == want.take(i as int),
                decreases rows@.len() - i,
            {
                let b = decode_block(&rows[i]);
                proof {
                    lemma_rows_push(out@, b);
                }
                out.push(b);
                i += 1;
                assert(rows_view(out@) =~= want.take(i as int));
            }
            assert(want.take(i as int) =~= want);
            let g = Grid {
                cols: *w,
                rows: out,
                cursor: *cur,
                cursor_style: *cursor_style,
                images: clone_images(images),
            };
            proof {
                assert(applied(prev@, msg@)->0->Screen_0.rows =~= want);
                assert(applied(prev@, msg@)->0->Screen_0 =~= g@);
            }
            Some(Frame::Screen(g))
        },
        WireMsg::Banner { html } => Some(Frame::Banner(html.clone())),
        WireMsg::Diff { cur, rects, cursor_style } => {
            let grid = match prev {
                Frame::Screen(g) => g,
                Frame::Banner(_) => return None,
            };
            let ghost all = rect_views(rects@);
            if !all_fit(rects) {
                return None;
            }
            let mut next = grid.clone();
            let mut i: usize = 0;
            let ghost start = grid@;
            assert(all.skip(0) =~= all);
            while i < rects.len()
                invariant
                    i <= rects@.len(),
                    all == rect_views(rects@),
                    rects_fit(all),
                    rects_applied(next@.rows, all.skip(i as int)) == rects_applied(start.rows, all),
                    next@.cols == start.cols,
                    next@.images == start.images,
                decreases rects@.len() - i,
            {
                assert(all.skip(i as int)[0] == rects@[i as int]@);
                assert(all.skip(i as int).drop_first() =~= all.skip(i + 1));
                assert(all[i as int].left + all[i as int].w <= usize::MAX);
                apply_rect(&mut next.rows, &rects[i]);
                i += 1;
            }
            next.cursor = *cur;
            next.cursor_style = *cursor_style;
            assert(all.skip(i as int) =~= Seq::<RectView>::empty());
            Some(Frame::Screen(next))
        },
    }
}

// ---- what both ends show ----

/// Whether two screens look the same.
pub open spec fn grids_alike(a: GridView, b: GridView) -> bool {
    &&& a.cols == b.cols
    &&& a.rows.len() == b.rows.len()
    &&& forall|y: int| 0 <= y < a.rows.len() ==> rows_alike(#[trigger] a.rows[y], b.rows[y])
    &&& a.cursor == b.cursor
    &&& a.cursor_style == b.cursor_style
    &&& a.images == b.images
}

/// Whether two frames look the same.
pub open spec fn frames_alike(a: FrameView, b: FrameView) -> bool {
    match (a, b) {
        (FrameView::Screen(x), FrameView::Screen(y)) => grids_alike(x, y),
        (FrameView::Banner(x), FrameView::Banner(y)) => x == y,
        _ => false,
    }
}

/// Whether every row of a frame has a length that a machine can hold.
pub open spec fn frame_fits(f: FrameView) -> bool {
    f matches FrameView::Screen(g) ==> forall|y: int|
        0 <= y < g.rows.len() ==> (#[trigger] g.rows[y]).len() <= usize::MAX
}

/// A whole frame read back is the frame itself, whatever was shown before.
pub proof fn law_full_reads_back(prev: FrameView, f: FrameView)
    ensures
        applied(prev, full_frame(f)) == Some(f),
{
    if let FrameView::Screen(g) = f {
        let got = applied(prev, full_frame(f))->0->Screen_0;
        assert forall|i: int| 0 <= i < g.rows.len() implies got.rows[i] == g.rows[i] by {
            law_block_reads_back(g.rows[i]);
        }
        assert(got.rows =~= g.rows);
        assert(got =~= g);
    }
}

/// A rectangle of the next screen, put on rows of the present one, leads to the next.
proof fn lemma_rect_leads(
    x: Seq<Seq<CellView>>,
    b: Seq<Seq<CellView>>,
    r: int,
    end: int,
    lo: int,
    hi: int,
    y: int,
)
    requires
        x.len() == b.len(),
        0 <= r <= y < end <= b.len(),
        0 <= lo <= hi,
        forall|i: int|
            0 <= i && !(lo <= i <= hi) ==> #[trigger] cell_at(x[y], i) == cell_at(b[y], i),
    ensures
        rows_alike(rect_applied(x, rect_of(b, r, lo, hi - lo + 1, end - r))[y], b[y]),
{
    let w = hi - lo + 1;
    let rect = rect_of(b, r, lo, w, end - r);
    let cells = rect_cells(b, r, lo, w, end - r);
    law_block_reads_back(cells);
    let base = (y - r) * w;
    let got = rect_applied(x, rect)[y];
    assert(got == row_patched(x[y], lo, w, cells, base));
    assert forall|i: int| 0 <= i implies #[trigger] cell_at(got, i) == cell_at(b[y], i) by {
        if lo <= i <= hi {
            let k = base + (i - lo);
            assert(0 <= k < (end - r) * w && k / w == y - r && k % w == i - lo) by (nonlinear_arith)
                requires
                    k == (y - r) * w + (i - lo),
                    0 <= i - lo < w,
                    0 <= y - r < end - r,
            ;
            assert(cells[k] == cell_at(b[y], i));
            assert(got[i] == cell_at(cells, k));
        } else {
            assert(cell_at(x[y], i) == cell_at(b[y], i));
            if i < got.len() {
                assert(got[i] == cell_at(x[y], i));
            }
        }
    }
}

proof fn lemma_rects_lead(
    x: Seq<Seq<CellView>>,
    a: Seq<Seq<CellView>>,
    b: Seq<Seq<CellView>>,
    r: int,
)
    requires
        x.len() == b.len(),
        a.len() == b.len(),
        0 <= r <= b.len(),
        forall|y: int| 0 <= y < r ==> rows_alike(#[trigger] x[y], b[y]),
        forall|y: int| r <= y < b.len() ==> rows_alike(#[trigger] x[y], a[y]),
    ensures
        ({
            let end = rects_applied(x, rects_from(spans_of(a, b), b, r));
            end.len() == b.len() && forall|y: int|
                0 <= y < b.len() ==> rows_alike(#[trigger] end[y], b[y])
        }),
    decreases b.len() - r,
{
    let spans = spans_of(a, b);
    let rects = rects_from(spans, b, r);
    if r < b.len() {
        law_span_is_what_changed(a[r], b[r]);
        match spans[r] {
            None => {
                assert(rows_alike(x[r], b[r])) by {
                    assert(rows_alike(x[r], a[r]));
                    assert(rows_alike(a[r], b[r]));
                    assert forall|i: int| 0 <= i implies #[trigger] cell_at(x[r], i) == cell_at(
                        b[r],
                        i,
                    ) by {
                        assert(cell_at(x[r], i) == cell_at(a[r], i));
                        assert(cell_at(a[r], i) == cell_at(b[r], i));
                    }
                }
                lemma_rects_lead(x, a, b, r + 1);
            },
            Some((lo, hi)) => {
                lemma_run_end(spans, r);
                let end = run_end(spans, r);
                let rect = rect_of(b, r, lo, hi - lo + 1, end - r);
                let x1 = rect_applied(x, rect);
                assert(rects[0] == rect);
                assert(rects.drop_first() =~= rects_from(spans, b, end));
                assert forall|y: int| 0 <= y < end implies rows_alike(#[trigger] x1[y], b[y]) by {
                    if y < r {
                        assert(x1[y] == x[y]);
                    } else {
                        assert(spans[y] == spans[r]);
                        law_span_is_what_changed(a[y], b[y]);
                        assert forall|i: int|
                            0 <= i && !(lo <= i <= hi) implies #[trigger] cell_at(x[y], i)
                            == cell_at(b[y], i) by {
                            assert(rows_alike(x[y], a[y]));
                            assert(cell_at(x[y], i) == cell_at(a[y], i));
                            assert(cell_at(a[y], i) == cell_at(b[y], i));
                        }
                        lemma_rect_leads(x, b, r, end, lo, hi, y);
                    }
                }
                assert forall|y: int| end <= y < b.len() implies rows_alike(
                    #[trigger] x1[y],
                    a[y],
                ) by {
                    assert(x1[y] == x[y]);
                }
                lemma_rects_lead(x1, a, b, end);
            },
        }
    }
}

proof fn lemma_rects_fit(a: Seq<Seq<CellView>>, b: Seq<Seq<CellView>>, r: int)
    requires
        a.len() == b.len(),
        0 <= r <= b.len(),
        forall|y: int| 0 <= y < a.len() ==> (#[trigger] a[y]).len() <= usize::MAX,
        forall|y: int| 0 <= y < b.len() ==> (#[trigger] b[y]).len() <= usize::MAX,
    ensures
        rects_fit(rects_from(spans_of(a, b), b, r)),
    decreases b.len() - r,
{
    let spans = spans_of(a, b);
    let rects = rects_from(spans, b, r);
    if r < b.len() {
        law_span_is_what_changed(a[r], b[r]);
        assert(a[r].len() <= usize::MAX);
        assert(b[r].len() <= usize::MAX);
        match spans[r] {
            None => lemma_rects_fit(a, b, r + 1),
            Some((lo, hi)) => {
                lemma_run_end(spans, r);
                let end = run_end(spans, r);
                lemma_rects_fit(a, b, end);
                let more = rects_from(spans, b, end);
                assert forall|i: int| 0 <= i < rects.len() implies (#[trigger] rects[i]).left
                    + rects[i].w <= usize::MAX by {
                    if i > 0 {
                        assert(rects[i] == more[i - 1]);
                    }
                }
            },
        }
    }
}

proof fn lemma_no_rects(a: Seq<Seq<CellView>>, b: Seq<Seq<CellView>>, r: int)
    requires
        a.len() == b.len(),
        0 <= r <= b.len(),
        rects_from(spans_of(a, b), b, r).len() == 0,
    ensures
        forall|y: int| r <= y < b.len() ==> rows_alike(#[trigger] a[y], b[y]),
    decreases b.len() - r,
{
    let spans = spans_of(a, b);
    if r < b.len() {
        law_span_is_what_changed(a[r], b[r]);
        match spans[r] {
            None => lemma_no_rects(a, b, r + 1),
            Some((lo, hi)) => {
                lemma_run_end(spans, r);
            },
        }
    }
}

/// Whoever shows the present frame shows the next one after the message for it; and shows
/// it already where there is no message. What is shown may differ from the frame in blanks
/// at the end of rows, before and after.
pub proof fn law_delta_leads_to_next(shown: FrameView, cur: FrameView, next: FrameView)
    requires
        frames_alike(shown, cur),
        frame_fits(cur),
        frame_fits(next),
    ensures
        match delta_of(cur, next) {
            Some(m) => applied(shown, m) matches Some(f) && frames_alike(f, next),
            None => frames_alike(shown, next),
        },
{
    match (cur, next) {
        (FrameView::Screen(a), FrameView::Screen(b)) => {
            let h = shown->Screen_0;
            if layout_kept(a, b) {
                match delta_of(cur, next) {
                    Some(m) => {
                        lemma_rects_fit(a.rows, b.rows, 0);
                        lemma_rects_lead(h.rows, a.rows, b.rows, 0);
                    },
                    None => {
                        lemma_no_rects(a.rows, b.rows, 0);
                        assert forall|y: int| 0 <= y < h.rows.len() implies rows_alike(
                            #[trigger] h.rows[y],
                            b.rows[y],
                        ) by {
                            assert(rows_alike(h.rows[y], a.rows[y]));
                            assert(rows_alike(a.rows[y], b.rows[y]));
                            assert forall|i: int| 0 <= i implies #[trigger] cell_at(h.rows[y], i)
                                == cell_at(b.rows[y], i) by {
                                assert(cell_at(h.rows[y], i) == cell_at(a.rows[y], i));
                                assert(cell_at(a.rows[y], i) == cell_at(b.rows[y], i));
                            }
                        }
                    },
                }
            } else {
                law_full_reads_back(shown, next);
            }
        },
        _ => {
            law_full_reads_back(shown, next);
        },
    }
}

/// A screen that did not change gives no message.
pub proof fn law_same_frame_gives_no_message(f: FrameView)
    ensures
        delta_of(f, f) is None,
{
    if let FrameView::Screen(g) = f {
        lemma_same_rows_no_rects(g.rows, 0);
    }
}

proof fn lemma_same_rows_no_rects(a: Seq<Seq<CellView>>, r: int)
    requires
        0 <= r <= a.len(),
    ensures
        rects_from(spans_of(a, a), a, r).len() == 0,
    decreases a.len() - r,
{
    if r < a.len() {
        law_span_is_what_changed(a[r], a[r]);
        lemma_same_rows_no_rects(a, r + 1);
    }
}

// ---- the text of a message ----

/// A character in a JSON string.
pub open spec fn json_char(c: char) -> Seq<char> {
    if c == '"' {
        "\\\""@
    } else if c == '\\' {
        "\\\\"@
    } else if c as u32 == 8 {
        "\\b"@
    } else if c as u32 == 12 {
        "\\f"@
    } else if c == '\n' {
        "\\n"@
    } else if c == '\r' {
        "\\r"@
    } else if c == '\t' {
        "\\t"@
    } else if (c as u32) < 32 {
        "\\u00"@ + hex2(c as u8)
    } else {
        seq![c]
    }
}

/// Characters in a JSON string.
pub open spec fn json_chars(s: Seq<char>) -> Seq<char>
    decreases s.len(),
{
    if s.len() == 0 {
        Seq::empty()
    } else {
        json_chars(s.drop_last()) + json_char(s.last())
    }
}

/// A JSON string.
pub open spec fn json_string(s: Seq<char>) -> Seq<char> {
    "\""@ + json_chars(s) + "\""@
}

/// Append a JSON string.
pub fn push_json_string(out: &mut String, s: &str)
    ensures
        final(out)@ == old(out)@ + json_string(s@),
{
    let cs = chars_of(s);
    let mut t = String::from_str("\"");
    let mut i: usize = 0;
    assert(cs@.take(0) =~= Seq::<char>::empty());
    assert(t@ =~= "\""@ + json_chars(cs@.take(0)));
    while i < cs.len()
        invariant
            i <= cs@.len(),
            t@ == "\""@ + json_chars(cs@.take(i as int)),
        decreases cs@.len() - i,
    {
        let c = cs[i];
        let ghost before = t@;
        if c == '"' {
            t.append("\\\"");
        } else if c == '\\' {
            t.append("\\\\");
        } else if c as u32 == 8 {
            t.append("\\b");
        } else if c as u32 == 12 {
            t.append("\\f");
        } else if c == '\n' {
            t.append("\\n");
        } else if c == '\r' {
            t.append("\\r");
        } else if c == '\t' {
            t.append("\\t");
        } else if (c as u32) < 32 {
            t.append("\\u00");
            push_hex2(&mut t, c as u8);
        } else {
            t.push(c);
        }
        assert(t@ =~= before + json_char(c));
        i += 1;
        assert(cs@.take(i as int).drop_last() =~= cs@.take(i - 1));
        assert(t@ =~= "\""@ + json_chars(cs@.take(i as int)));
    }
    assert(cs@.take(i as int) =~= cs@);
    t.append("\"");
    out.append(t.as_str());
}

/// Texts with commas between them.
pub open spec fn joined(items: Seq<Seq<char>>) -> Seq<char>
    decreases items.len(),
{
    if items.len() == 0 {
        Seq::empty()
    } else if items.len() == 1 {
        items[0]
    } else {
        joined(items.drop_last()) + ","@ + items.last()
    }
}

/// The models of texts.
pub open spec fn text_views(s: Seq<String>) -> Seq<Seq<char>> {
    Seq::new(s.len(), |i: int| s[i]@)
}

/// Append texts with commas between them.
pub fn push_joined(out: &mut String, items: &Vec<String>)
    ensures
        final(out)@ == old(out)@ + joined(text_views(items@)),
{
    let ghost all = text_views(items@);
    let mut i: usize = 0;
    assert(out@ =~= old(out)@ + joined(all.take(0)));
    while i < items.len()
        invariant
            i <= items@.len(),
            all == text_views(items@),
            out@ == old(out)@ + joined(all.take(i as int)),
        decreases items@.len() - i,
    {
        if i > 0 {
            out.append(",");
        }
        out.append(items[i].as_str());
        i += 1;
        assert(all.take(i as int).drop_last() =~= all.take(i - 1));
        assert(out@ =~= old(out)@ + joined(all.take(i as int)));
    }
    assert(all.take(i as int) =~= all);
}

/// A colour on the wire: nothing, a palette index, or three numbers.
pub open spec fn json_color(c: Color) -> Seq<char> {
    match c {
        Color::Default => "null"@,
        Color::Idx(i) => dec(i as nat),
        Color::Rgb(r, g, b) => "["@ + dec(r as nat) + ","@ + dec(g as nat) + ","@ + dec(b as nat) + "]"@,
    }
}

/// A colour on the wire.
pub fn color_text(c: Color) -> (t: String)
    ensures
        t@ == json_color(c),
{
    match c {
        Color::Default => String::from_str("null"),
        Color::Idx(i) => dec_text(i as u64),
        Color::Rgb(r, g, b) => {
            let mut t = String::from_str("[");
            push_dec(&mut t, r as u64);
            t.append(",");
            push_dec(&mut t, g as u64);
            t.append(",");
            push_dec(&mut t, b as u64);
            t.append("]");
            t
        },
    }
}

/// The colour that a number from the wire names: a palette index, if it is small enough.
pub fn color_index(v: u64) -> (r: Option<Color>)
    ensures
        r == (if v < 256 {
            Some(Color::Idx(v as u8))
        } else {
            None
        }),
{
    if v < 256 {
        Some(Color::Idx(v as u8))
    } else {
        None
    }
}

/// One field, where it is present.
pub open spec fn field(present: bool, name: Seq<char>, value: Seq<char>) -> Seq<Seq<char>> {
    if present {
        seq![name + value]
    } else {
        Seq::empty()
    }
}

/// The fields of a style that are not plain.
pub open spec fn style_fields(s: CellStyle) -> Seq<Seq<char>> {
    field(s.fg != Color::Default, "\"f\":"@, json_color(s.fg)) + field(
        s.bg != Color::Default,
        "\"g\":"@,
        json_color(s.bg),
    ) + field(s.bold, "\"b\":"@, "true"@) + field(s.dim, "\"d\":"@, "true"@) + field(
        s.italic,
        "\"i\":"@,
        "true"@,
    ) + field(s.underline != 0, "\"u\":"@, dec(s.underline as nat)) + field(
        s.strike,
        "\"s\":"@,
        "true"@,
    ) + field(s.ulcolor != Color::Default, "\"k\":"@, json_color(s.ulcolor)) + field(
        s.inverse,
        "\"n\":"@,
        "true"@,
    ) + field(s.wide, "\"w\":"@, "true"@)
}

fn push_field(out: &mut Vec<String>, present: bool, name: &str, value: &str)
    ensures
        text_views(final(out)@) == text_views(old(out)@) + field(present, name@, value@),
{
    let ghost before = text_views(out@);
    if present {
        let mut t = String::from_str(name);
        t.append(value);
        out.push(t);
    }
    assert(text_views(out@) =~= before + field(present, name@, value@));
}

/// A style on the wire, after the place of its cell.
pub open spec fn json_style_entry(e: (int, CellStyle)) -> Seq<char> {
    "\""@ + dec(e.0 as nat) + "\":{"@ + joined(style_fields(e.1)) + "}"@
}

fn style_entry_text(i: usize, s: &CellStyle) -> (t: String)
    ensures
        t@ == json_style_entry((i as int, *s)),
{
    let mut fields: Vec<String> = Vec::new();
    assert(text_views(fields@) =~= Seq::<Seq<char>>::empty());
    push_field(&mut fields, s.fg != Color::Default, "\"f\":", color_text(s.fg).as_str());
    push_field(&mut fields, s.bg != Color::Default, "\"g\":", color_text(s.bg).as_str());
    push_field(&mut fields, s.bold, "\"b\":", "true");
    push_field(&mut fields, s.dim, "\"d\":", "true");
    push_field(&mut fields, s.italic, "\"i\":", "true");
    push_field(&mut fields, s.underline != 0, "\"u\":", dec_text(s.underline as u64).as_str());
    push_field(&mut fields, s.strike, "\"s\":", "true");
    push_field(&mut fields, s.ulcolor != Color::Default, "\"k\":", color_text(s.ulcolor).as_str());
    push_field(&mut fields, s.inverse, "\"n\":", "true");
    push_field(&mut fields, s.wide, "\"w\":", "true");
    assert(text_views(fields@) =~= style_fields(*s));
    let mut t = String::from_str("\"");
    push_dec(&mut t, i as u64);
    t.append("\":{");
    push_joined(&mut t, &fields);
    t.append("}");
    t
}

/// A cell's text on the wire: a blank is `0`.
pub open spec fn json_glyph(t: Option<Seq<char>>) -> Seq<char> {
    match t {
        Some(g) => json_string(g),
        None => "0"@,
    }
}

/// The fields of a block; what is empty is left out.
pub open spec fn block_fields(b: BlockView) -> Seq<Seq<char>> {
    field(
        b.text.len() > 0,
        "\"t\":["@,
        joined(Seq::new(b.text.len(), |i: int| json_glyph(b.text[i]))) + "]"@,
    ) + field(
        b.style.len() > 0,
        "\"s\":{"@,
        joined(Seq::new(b.style.len(), |i: int| json_style_entry(b.style[i]))) + "}"@,
    )
}

fn push_block_fields(out: &mut Vec<String>, b: &CellBlock)
    ensures
        text_views(final(out)@) == text_views(old(out)@) + block_fields(b@),
{
    let ghost before = text_views(out@);
    let ghost glyphs = Seq::new(b@.text.len(), |i: int| json_glyph(b@.text[i]));
    let ghost styles = Seq::new(b@.style.len(), |i: int| json_style_entry(b@.style[i]));
    let mut texts: Vec<String> = Vec::new();
    let mut i: usize = 0;
    while i < b.text.len()
        invariant
            i <= b.text@.len(),
            glyphs == Seq::new(b@.text.len(), |j: int| json_glyph(b@.text[j])),
            text_views(texts@) == glyphs.take(i as int),
        decreases b.text@.len() - i,
    {
        let ghost was = text_views(texts@);
        let t = match &b.text[i] {
            Text::Blank => String::from_str("0"),
            Text::Glyph(g) => {
                let mut t = String::new();
                push_json_string(&mut t, g.as_str());
                assert(t@ =~= json_string(g@));
                t
            },
        };
        texts.push(t);
        i += 1;
        assert(text_views(texts@) =~= was.push(t@));
        assert(text_views(texts@) =~= glyphs.take(i as int));
    }
    assert(glyphs.take(i as int) =~= glyphs);
    let mut entries: Vec<String> = Vec::new();
    let mut k: usize = 0;
    while k < b.style.len()
        invariant
            k <= b.style@.len(),
            styles == Seq::new(b@.style.len(), |j: int| json_style_entry(b@.style[j])),
            text_views(entries@) == styles.take(k as int),
        decreases b.style@.len() - k,
    {
        let ghost was = text_views(entries@);
        let t = style_entry_text(b.style[k].0, &b.style[k].1);
        entries.push(t);
        k += 1;
        assert(text_views(entries@) =~= was.push(t@));
        assert(text_views(entries@) =~= styles.take(k as int));
    }
    assert(styles.take(k as int) =~= styles);
    let mut t = String::new();
    push_joined(&mut t, &texts);
    t.append("]");
    assert(t@ =~= joined(glyphs) + "]"@);
    let mut s = String::new();
    push_joined(&mut s, &entries);
    s.append("}");
    assert(s@ =~= joined(styles) + "}"@);
    push_field(out, b.text.len() > 0, "\"t\":[", t.as_str());
    push_field(out, b.style.len() > 0, "\"s\":{", s.as_str());
    assert(text_views(out@) =~= before + block_fields(b@));
}

/// A block on the wire.
pub open spec fn json_block(b: BlockView) -> Seq<char> {
    "{"@ + joined(block_fields(b)) + "}"@
}

fn block_text(b: &CellBlock) -> (t: String)
    ensures
        t@ == json_block(b@),
{
    let mut fields: Vec<String> = Vec::new();
    push_block_fields(&mut fields, b);
    assert(text_views(fields@) =~= block_fields(b@));
    let mut t = String::from_str("{");
    push_joined(&mut t, &fields);
    t.append("}");
    t
}

/// The fields of a rectangle.
pub open spec fn rect_fields(r: RectView) -> Seq<Seq<char>> {
    field(true, "\"top\":"@, dec(r.top as nat)) + field(true, "\"left\":"@, dec(r.left as nat))
        + field(true, "\"w\":"@, dec(r.w as nat)) + field(true, "\"h\":"@, dec(r.h as nat))
        + block_fields(r.block)
}

/// A rectangle on the wire.
pub open spec fn json_rect(r: RectView) -> Seq<char> {
    "{"@ + joined(rect_fields(r)) + "}"@
}

fn rect_text(r: &WireRect) -> (t: String)
    ensures
        t@ == json_rect(r@),
{
    let mut fields: Vec<String> = Vec::new();
    assert(text_views(fields@) =~= Seq::<Seq<char>>::empty());
    push_field(&mut fields, true, "\"top\":", dec_text(r.top as u64).as_str());
    push_field(&mut fields, true, "\"left\":", dec_text(r.left as u64).as_str());
    push_field(&mut fields, true, "\"w\":", dec_text(r.w as u64).as_str());
    push_field(&mut fields, true, "\"h\":", dec_text(r.h as u64).as_str());
    push_block_fields(&mut fields, &r.block);
    assert(text_views(fields@) =~= rect_fields(r@));
    let mut t = String::from_str("{");
    push_joined(&mut t, &fields);
    t.append("}");
    t
}

/// A whole number in decimal.
pub open spec fn signed_dec(n: int) -> Seq<char> {
    if n < 0 {
        "-"@ + dec((-n) as nat)
    } else {
        dec(n as nat)
    }
}

fn signed_text(n: i16) -> (t: String)
    ensures
        t@ == signed_dec(n as int),
{
    if n < 0 {
        let mut t = String::from_str("-");
        let m: i32 = -(n as i32);
        push_dec(&mut t, m as u64);
        t
    } else {
        dec_text(n as u64)
    }
}

/// The number in an optional size.
pub open spec fn size_or_zero(s: Option<u16>) -> nat {
    match s {
        Some(v) => v as nat,
        None => 0,
    }
}

/// The fields of an image on the screen.
pub open spec fn image_fields(p: PlacementView) -> Seq<Seq<char>> {
    field(true, "\"r\":"@, signed_dec(p.row as int)) + field(true, "\"c\":"@, dec(p.col as nat))
        + field(p.cols is Some, "\"w\":"@, dec(size_or_zero(p.cols))) + field(
        p.rows is Some,
        "\"h\":"@,
        dec(size_or_zero(p.rows)),
    ) + field(true, "\"m\":"@, json_string(p.mime)) + field(true, "\"d\":"@, json_string(p.data))
}

/// An image on the screen, on the wire.
pub open spec fn json_image(p: PlacementView) -> Seq<char> {
    "{"@ + joined(image_fields(p)) + "}"@
}

fn quoted(s: &str) -> (t: String)
    ensures
        t@ == json_string(s@),
{
    let mut t = String::new();
    push_json_string(&mut t, s);
    assert(t@ =~= json_string(s@));
    t
}

fn image_text(p: &ImagePlacement) -> (t: String)
    ensures
        t@ == json_image(p@),
{
    let mut fields: Vec<String> = Vec::new();
    assert(text_views(fields@) =~= Seq::<Seq<char>>::empty());
    let w: u16 = match p.cols {
        Some(v) => v,
        None => 0,
    };
    let h: u16 = match p.rows {
        Some(v) => v,
        None => 0,
    };
    push_field(&mut fields, true, "\"r\":", signed_text(p.row).as_str());
    push_field(&mut fields, true, "\"c\":", dec_text(p.col as u64).as_str());
    push_field(&mut fields, p.cols.is_some(), "\"w\":", dec_text(w as u64).as_str());
    push_field(&mut fields, p.rows.is_some(), "\"h\":", dec_text(h as u64).as_str());
    push_field(&mut fields, true, "\"m\":", quoted(p.mime.as_str()).as_str());
    push_field(&mut fields, true, "\"d\":", quoted(p.data.as_str()).as_str());
    assert(text_views(fields@) =~= image_fields(p@));
    let mut t = String::from_str("{");
    push_joined(&mut t, &fields);
    t.append("}");
    t
}

/// The cursor on the wire.
pub open spec fn json_cursor(c: Option<(u16, u16)>) -> Seq<char> {
    match c {
        Some((r, c)) => "["@ + dec(r as nat) + ","@ + dec(c as nat) + "]"@,
        None => "null"@,
    }
}

fn cursor_text(c: Option<(u16, u16)>) -> (t: String)
    ensures
        t@ == json_cursor(c),
{
    match c {
        Some((r, c)) => {
            let mut t = String::from_str("[");
            push_dec(&mut t, r as u64);
            t.append(",");
            push_dec(&mut t, c as u64);
            t.append("]");
            t
        },
        None => String::from_str("null"),
    }
}

/// The fields of a message. The cursor's shape and the images are left out where there is
/// nothing to say of them.
pub open spec fn msg_fields(m: MsgView) -> Seq<Seq<char>> {
    match m {
        MsgView::Full { w, h, cur, rows, cursor_style, images } => field(true, "\"t\":"@, "\"f\""@)
            + field(true, "\"w\":"@, dec(w as nat)) + field(true, "\"h\":"@, dec(h as nat)) + field(
            true,
            "\"cur\":"@,
            json_cursor(cur),
        ) + field(
            true,
            "\"rows\":["@,
            joined(Seq::new(rows.len(), |i: int| json_block(rows[i]))) + "]"@,
        ) + field(cursor_style != 0, "\"q\":"@, dec(cursor_style as nat)) + field(
            images.len() > 0,
            "\"i\":["@,
            joined(Seq::new(images.len(), |i: int| json_image(images[i]))) + "]"@,
        ),
        MsgView::Diff { cur, rects, cursor_style } => field(true, "\"t\":"@, "\"d\""@) + field(
            true,
            "\"cur\":"@,
            json_cursor(cur),
        ) + field(
            true,
            "\"rects\":["@,
            joined(Seq::new(rects.len(), |i: int| json_rect(rects[i]))) + "]"@,
        ) + field(cursor_style != 0, "\"q\":"@, dec(cursor_style as nat)),
        MsgView::Banner { html } => field(true, "\"t\":"@, "\"b\""@) + field(
            true,
            "\"html\":"@,
            json_string(html),
        ),
    }
}

/// A message on the wire.
pub open spec fn json_msg(m: MsgView) -> Seq<char> {
    "{"@ + joined(msg_fields(m)) + "}"@
}

fn rows_text(rows: &Vec<CellBlock>) -> (t: String)
    ensures
        t@ == joined(Seq::new(block_views(rows@).len(), |i: int| json_block(block_views(rows@)[i])))
            + "]"@,
{
    let ghost want = Seq::new(block_views(rows@).len(), |i: int| json_block(block_views(rows@)[i]));
    let mut items: Vec<String> = Vec::new();
    let mut i: usize = 0;
    while i < rows.len()
        invariant
            i <= rows@.len(),
            want == Seq::new(block_views(rows@).len(), |j: int| json_block(block_views(rows@)[j])),
            text_views(items@) == want.take(i as int),
        decreases rows@.len() - i,
    {
        let ghost was = text_views(items@);
        let t = block_text(&rows[i]);
        items.push(t);
        i += 1;
        assert(text_views(items@) =~= was.push(t@));
        assert(text_views(items@) =~= want.take(i as int));
    }
    assert(want.take(i as int) =~= want);
    let mut t = String::new();
    push_joined(&mut t, &items);
    t.append("]");
    assert(t@ =~= joined(want) + "]"@);
    t
}

fn rects_text(rects: &Vec<WireRect>) -> (t: String)
    ensures
        t@ == joined(Seq::new(rect_views(rects@).len(), |i: int| json_rect(rect_views(rects@)[i])))
            + "]"@,
{
    let ghost want = Seq::new(rect_views(rects@).len(), |i: int| json_rect(rect_views(rects@)[i]));
    let mut items: Vec<String> = Vec::new();
    let mut i: usize = 0;
    while i < rects.len()
        invariant
            i <= rects@.len(),
            want == Seq::new(rect_views(rects@).len(), |j: int| json_rect(rect_views(rects@)[j])),
            text_views(items@) == want.take(i as int),
        decreases rects@.len() - i,
    {
        let ghost was = text_views(items@);
        let t = rect_text(&rects[i]);
        items.push(t);
        i += 1;
        assert(text_views(items@) =~= was.push(t@));
        assert(text_views(items@) =~= want.take(i as int));
    }
    assert(want.take(i as int) =~= want);
    let mut t = String::new();
    push_joined(&mut t, &items);
    t.append("]");
    assert(t@ =~= joined(want) + "]"@);
    t
}

fn images_text(images: &Vec<ImagePlacement>) -> (t: String)
    ensures
        t@ == joined(
            Seq::new(images_view(images@).len(), |i: int| json_image(images_view(images@)[i])),
        ) + "]"@,
{
    let ghost want = Seq::new(
        images_view(images@).len(),
        |i: int| json_image(images_view(images@)[i]),
    );
    let mut items: Vec<String> = Vec::new();
    let mut i: usize = 0;
    while i < images.len()
        invariant
            i <= images@.len(),
            want == Seq::new(
                images_view(images@).len(),
                |j: int| json_image(images_view(images@)[j]),
            ),
            text_views(items@) == want.take(i as int),
        decreases images@.len() - i,
    {
        let ghost was = text_views(items@);
        let t = image_text(&images[i]);
        items.push(t);
        i += 1;
        assert(text_views(items@) =~= was.push(t@));
        assert(text_views(items@) =~= want.take(i as int));
    }
    assert(want.take(i as int) =~= want);
    let mut t = String::new();
    push_joined(&mut t, &items);
    t.append("]");
    assert(t@ =~= joined(want) + "]"@);
    t
}

/// A message as JSON.
pub fn encode(m: &WireMsg) -> (t: String)
    ensures
        t@ == json_msg(m@),
{
    let mut fields: Vec<String> = Vec::new();
    assert(text_views(fields@) =~= Seq::<Seq<char>>::empty());
    match m {
        WireMsg::Full { w, h, cur, rows, cursor_style, images } => {
            push_field(&mut fields, true, "\"t\":", "\"f\"");
            push_field(&mut fields, true, "\"w\":", dec_text(*w as u64).as_str());
            push_field(&mut fields, true, "\"h\":", dec_text(*h as u64).as_str());
            push_field(&mut fields, true, "\"cur\":", cursor_text(*cur).as_str());
            push_field(&mut fields, true, "\"rows\":[", rows_text(rows).as_str());
            push_field(
                &mut fields,
                *cursor_style != 0,
                "\"q\":",
                dec_text(*cursor_style as u64).as_str(),
            );
            push_field(&mut fields, images.len() > 0, "\"i\":[", images_text(images).as_str());
        },
        WireMsg::Diff { cur, rects, cursor_style } => {
            push_field(&mut fields, true, "\"t\":", "\"d\"");
            push_field(&mut fields, true, "\"cur\":", cursor_text(*cur).as_str());
            push_field(&mut fields, true, "\"rects\":[", rects_text(rects).as_str());
            push_field(
                &mut fields,
                *cursor_style != 0,
                "\"q\":",
                dec_text(*cursor_style as u64).as_str(),
            );
        },
        WireMsg::Banner { html } => {
            push_field(&mut fields, true, "\"t\":", "\"b\"");
            push_field(&mut fields, true, "\"html\":", quoted(html.as_str()).as_str());
        },
    }
    assert(text_views(fields@) =~= msg_fields(m@));
    let mut t = String::from_str("{");
    push_joined(&mut t, &fields);
    t.append("}");
    t
}

/// The message that takes a viewer from one frame to the next, as JSON; none where both
/// look the same.
pub fn encode_delta(cur: &Frame, next: &Frame) -> (r: Option<String>)
    ensures
        r is Some <==> delta_of(cur@, next@) is Some,
        r matches Some(t) ==> t@ == json_msg(delta_of(cur@, next@)->0),
{
    match delta(cur, next) {
        Some(m) => Some(encode(&m)),
        None => None,
    }
}

/// The message for a whole frame, as JSON.
pub fn full_message(frame: &Frame) -> (t: String)
    ensures
        t@ == json_msg(full_frame(frame@)),
{
    encode(&full(frame))
}

// ---- publishing ----

/// The frames of one session: the present one and its number. Every change of frame takes
/// the next number, which goes with the message for the change.
pub struct Live {
    seq: u64,
    frame: Frame,
    online: bool,
}

impl Live {
    /// The number of the present frame.
    pub closed spec fn number(&self) -> u64 {
        self.seq
    }

    /// The present frame.
    pub closed spec fn shown(&self) -> FrameView {
        self.frame@
    }

    /// Whether the operator is connected.
    pub closed spec fn connected(&self) -> bool {
        self.online
    }

    /// Start with a frame, the operator connected.
    pub fn new(initial: Frame) -> (r: Live)
        ensures
            r.number() == 0,
            r.shown() == initial@,
            r.connected(),
    {
        Live { seq: 0, frame: initial, online: true }
    }

    /// The number of the present frame.
    pub fn seq(&self) -> (r: u64)
        ensures
            r == self.number(),
    {
        self.seq
    }

    /// The present frame.
    pub fn current(&self) -> (r: &Frame)
        ensures
            r@ == self.shown(),
    {
        &self.frame
    }

    /// Whether the operator is connected.
    pub fn is_online(&self) -> (r: bool)
        ensures
            r == self.connected(),
    {
        self.online
    }

    /// Note whether the operator is connected.
    pub fn set_online(&mut self, online: bool)
        ensures
            final(self).connected() == online,
            final(self).number() == old(self).number(),
            final(self).shown() == old(self).shown(),
    {
        self.online = online;
    }

    /// The message for the whole present frame, with its number: what a viewer starts with.
    pub fn snapshot(&self) -> (r: (u64, String))
        ensures
            r.0 == self.number(),
            r.1@ == json_msg(full_frame(self.shown())),
    {
        (self.seq, full_message(&self.frame))
    }

    /// Show the next frame: the message for the change, with its number. A frame that looks
    /// the same changes nothing.
    pub fn publish(&mut self, next: Frame) -> (r: Option<(u64, String)>)
        requires
            old(self).number() < u64::MAX,
        ensures
            final(self).connected() == old(self).connected(),
            match delta_of(old(self).shown(), next@) {
                Some(m) => {
                    &&& r matches Some((n, t)) && n == old(self).number() + 1 && t@ == json_msg(m)
                    &&& final(self).number() == old(self).number() + 1
                    &&& final(self).shown() == next@
                },
                None => {
                    &&& r is None
                    &&& final(self).number() == old(self).number()
                    &&& final(self).shown() == old(self).shown()
                },
            },
    {
        match encode_delta(&self.frame, &next) {
            Some(t) => {
                self.seq = self.seq + 1;
                self.frame = next;
                Some((self.seq, t))
            },
            None => None,
        }
    }

    /// Show what a message leads to: the number under which the message is passed on as it
    /// is. A message that cannot be applied changes nothing and is not passed on.
    pub fn publish_wire(&mut self, msg: &WireMsg) -> (r: Option<u64>)
        requires
            old(self).number() < u64::MAX,
        ensures
            final(self).connected() == old(self).connected(),
            match applied(old(self).shown(), msg@) {
                Some(f) => {
                    &&& r == Some((old(self).number() + 1) as u64)
                    &&& final(self).number() == old(self).number() + 1
                    &&& final(self).shown() == f
                },
                None => {
                    &&& r is None
                    &&& final(self).number() == old(self).number()
                    &&& final(self).shown() == old(self).shown()
                },
            },
    {
        match apply_wire(&self.frame, msg) {
            Some(f) => {
                self.seq = self.seq + 1;
                self.frame = f;
                Some(self.seq)
            },
            None => None,
        }
    }
}

/// What a viewer has been sent: everything up to a number.
pub struct Viewer {
    threshold: u64,
}

impl Viewer {
    /// The number up to which everything was sent.
    pub closed spec fn covered(&self) -> u64 {
        self.threshold
    }

    /// A viewer that was sent the whole frame with this number.
    pub fn at(seq: u64) -> (r: Viewer)
        ensures
            r.covered() == seq,
    {
        Viewer { threshold: seq }
    }

    /// Whether a message with this number is to be sent: not where the whole frame already
    /// held it.
    pub fn accepts(&self, seq: u64) -> (r: bool)
        ensures
            r == (seq > self.covered()),
    {
        seq > self.threshold
    }

    /// The viewer fell behind, and was sent the whole frame with this number.
    pub fn resync(&mut self, seq: u64)
        ensures
            final(self).covered() == seq,
    {
        self.threshold = seq;
    }
}

// ---- joining at any time ----

/// The number and the frame after frames are published, in turn.
pub open spec fn published(start: (int, FrameView), frames: Seq<FrameView>) -> (int, FrameView)
    decreases frames.len(),
{
    if frames.len() == 0 {
        start
    } else {
        let before = published(start, frames.drop_last());
        match delta_of(before.1, frames.last()) {
            Some(_) => (before.0 + 1, frames.last()),
            None => before,
        }
    }
}

/// The messages that go out for them, with their numbers.
pub open spec fn sent(start: (int, FrameView), frames: Seq<FrameView>) -> Seq<(int, MsgView)>
    decreases frames.len(),
{
    if frames.len() == 0 {
        Seq::empty()
    } else {
        let before = published(start, frames.drop_last());
        match delta_of(before.1, frames.last()) {
            Some(m) => sent(start, frames.drop_last()).push((before.0 + 1, m)),
            None => sent(start, frames.drop_last()),
        }
    }
}

/// What a viewer shows that starts with a frame and takes the messages with greater numbers
/// than `covered`.
pub open spec fn followed(covered: int, shown: FrameView, msgs: Seq<(int, MsgView)>) -> Option<
    FrameView,
>
    decreases msgs.len(),
{
    if msgs.len() == 0 {
        Some(shown)
    } else {
        match followed(covered, shown, msgs.drop_last()) {
            Some(f) => if msgs.last().0 > covered {
                applied(f, msgs.last().1)
            } else {
                Some(f)
            },
            None => None,
        }
    }
}

proof fn lemma_sent_numbers(start: (int, FrameView), frames: Seq<FrameView>)
    ensures
        start.0 <= published(start, frames).0,
        forall|i: int|
            0 <= i < sent(start, frames).len() ==> (#[trigger] sent(start, frames)[i]).0
                <= published(start, frames).0,
    decreases frames.len(),
{
    if frames.len() > 0 {
        lemma_sent_numbers(start, frames.drop_last());
        let before = sent(start, frames.drop_last());
        assert forall|i: int| 0 <= i < sent(start, frames).len() implies (#[trigger] sent(
            start,
            frames,
        )[i]).0 <= published(start, frames).0 by {
            if i < before.len() {
                assert(sent(start, frames)[i] == before[i]);
            }
        }
    }
}

proof fn lemma_numbers_grow(start: (int, FrameView), frames: Seq<FrameView>, k: int)
    requires
        0 <= k <= frames.len(),
    ensures
        published(start, frames.take(k)).0 <= published(start, frames).0,
    decreases frames.len(),
{
    if k == frames.len() {
        assert(frames.take(k) =~= frames);
    } else {
        assert(frames.drop_last().take(k) =~= frames.take(k));
        lemma_numbers_grow(start, frames.drop_last(), k);
    }
}

proof fn lemma_covered_are_skipped(covered: int, shown: FrameView, msgs: Seq<(int, MsgView)>)
    requires
        forall|i: int| 0 <= i < msgs.len() ==> (#[trigger] msgs[i]).0 <= covered,
    ensures
        followed(covered, shown, msgs) == Some(shown),
    decreases msgs.len(),
{
    if msgs.len() > 0 {
        let d = msgs.drop_last();
        assert forall|i: int| 0 <= i < d.len() implies (#[trigger] d[i]).0 <= covered by {
            assert(d[i] == msgs[i]);
        }
        lemma_covered_are_skipped(covered, shown, d);
        assert(msgs[msgs.len() - 1].0 <= covered);
    }
}

proof fn lemma_published_fits(start: (int, FrameView), frames: Seq<FrameView>)
    requires
        frame_fits(start.1),
        forall|i: int| 0 <= i < frames.len() ==> frame_fits(#[trigger] frames[i]),
    ensures
        frame_fits(published(start, frames).1),
    decreases frames.len(),
{
    if frames.len() > 0 {
        let d = frames.drop_last();
        assert forall|i: int| 0 <= i < d.len() implies frame_fits(#[trigger] d[i]) by {
            assert(d[i] == frames[i]);
        }
        lemma_published_fits(start, d);
        assert(frame_fits(frames[frames.len() - 1]));
    }
}

/// A viewer may join at any time: it takes a snapshot after any number of frames, and then all
/// messages from the first on, of which it drops those that the snapshot covers. It ends with
/// what the last frame shows.
pub proof fn law_viewer_joins_at_any_time(
    start: (int, FrameView),
    frames: Seq<FrameView>,
    k: int,
)
    requires
        0 <= k <= frames.len(),
        frame_fits(start.1),
        forall|i: int| 0 <= i < frames.len() ==> frame_fits(#[trigger] frames[i]),
    ensures
        ({
            let (covered, snapshot) = published(start, frames.take(k));
            &&& followed(covered, snapshot, sent(start, frames)) matches Some(f) && frames_alike(
                f,
                published(start, frames).1,
            )
        }),
    decreases frames.len(),
{
    let (covered, snapshot) = published(start, frames.take(k));
    if k == frames.len() {
        assert(frames.take(k) =~= frames);
        lemma_sent_numbers(start, frames);
        lemma_covered_are_skipped(covered, snapshot, sent(start, frames));
        lemma_alike_itself(snapshot);
    } else {
        let d = frames.drop_last();
        assert(d.take(k) =~= frames.take(k));
        assert forall|i: int| 0 <= i < d.len() implies frame_fits(#[trigger] d[i]) by {
            assert(d[i] == frames[i]);
        }
        law_viewer_joins_at_any_time(start, d, k);
        lemma_published_fits(start, d);
        assert(frame_fits(frames[frames.len() - 1]));
        lemma_numbers_grow(start, d, k);
        let before = published(start, d);
        let f = followed(covered, snapshot, sent(start, d))->0;
        match delta_of(before.1, frames.last()) {
            Some(m) => {
                law_delta_leads_to_next(f, before.1, frames.last());
                let all = sent(start, frames);
                assert(all.drop_last() =~= sent(start, d));
                assert(all.last() == (before.0 + 1, m));
            },
            None => {},
        }
    }
}

proof fn lemma_alike_itself(f: FrameView)
    ensures
        frames_alike(f, f),
{
}

} // verus!
