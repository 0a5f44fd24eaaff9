//! A terminal screen as styled cells.
use crate::text::same_text;
use vstd::prelude::*;
use vstd::string::*;

verus! {

/// A terminal colour.
#[derive(Debug, Clone, Copy, PartialEq, Eq, Structural, Hash)]
pub enum Color {
    /// The terminal's own.
    Default,
    /// An entry of the palette.
    Idx(u8),
    /// Red, green and blue.
    Rgb(u8, u8, u8),
}

impl Default for Color {
    fn default() -> (r: Self)
        ensures
            r == Color::Default,
    {
        Color::Default
    }
}

/// How a cell looks, apart from its text.
#[derive(Debug, Clone, Copy, PartialEq, Eq, Structural)]
pub struct CellStyle {
    pub fg: Color,
    pub bg: Color,
    pub bold: bool,
    pub dim: bool,
    pub italic: bool,
    /// 0 none, 1 single, 2 double, 3 curly, 4 dotted, 5 dashed.
    pub underline: u8,
    pub strike: bool,
    /// The underline's colour; `Default` follows the text.
    pub ulcolor: Color,
    pub inverse: bool,
    /// The cell covers two columns.
    pub wide: bool,
}

/// The style of plain text.
pub open spec fn plain_style() -> CellStyle {
    CellStyle {
        fg: Color::Default,
        bg: Color::Default,
        bold: false,
        dim: false,
        italic: false,
        underline: 0,
        strike: false,
        ulcolor: Color::Default,
        inverse: false,
        wide: false,
    }
}

impl Default for CellStyle {
    fn default() -> (r: Self)
        ensures
            r == plain_style(),
    {
        CellStyle {
            fg: Color::Default,
            bg: Color::Default,
            bold: false,
            dim: false,
            italic: false,
            underline: 0,
            strike: false,
            ulcolor: Color::Default,
            inverse: false,
            wide: false,
        }
    }
}

/// One cell of the screen.
#[derive(Debug, PartialEq, Eq)]
pub struct StyledCell {
    /// What the cell shows; empty for a blank.
    pub text: String,
    pub fg: Color,
    pub bg: Color,
    pub bold: bool,
    pub dim: bool,
    pub italic: bool,
    /// 0 none, 1 single, 2 double, 3 curly, 4 dotted, 5 dashed.
    pub underline: u8,
    pub strike: bool,
    /// The underline's colour; `Default` follows the text.
    pub ulcolor: Color,
    pub inverse: bool,
    /// The cell covers two columns.
    pub wide: bool,
}

/// The model of [`StyledCell`].
pub ghost struct CellView {
    pub text: Seq<char>,
    pub style: CellStyle,
}

impl View for StyledCell {
    type V = CellView;

    open spec fn view(&self) -> CellView {
        CellView {
            text: self.text@,
            style: CellStyle {
                fg: self.fg,
                bg: self.bg,
                bold: self.bold,
                dim: self.dim,
                italic: self.italic,
                underline: self.underline,
                strike: self.strike,
                ulcolor: self.ulcolor,
                inverse: self.inverse,
                wide: self.wide,
            },
        }
    }
}

/// A blank cell.
pub open spec fn blank_cell() -> CellView {
    CellView { text: Seq::empty(), style: plain_style() }
}

impl StyledCell {
    /// A cell of this text and style.
    pub fn styled(text: String, s: CellStyle) -> (r: Self)
        ensures
            r@ == (CellView { text: text@, style: s }),
    {
        StyledCell {
            text,
            fg: s.fg,
            bg: s.bg,
            bold: s.bold,
            dim: s.dim,
            italic: s.italic,
            underline: s.underline,
            strike: s.strike,
            ulcolor: s.ulcolor,
            inverse: s.inverse,
            wide: s.wide,
        }
    }

    /// How the cell looks, apart from its text.
    pub fn style(&self) -> (r: CellStyle)
        ensures
            r == self@.style,
    {
        CellStyle {
            fg: self.fg,
            bg: self.bg,
            bold: self.bold,
            dim: self.dim,
            italic: self.italic,
            underline: self.underline,
            strike: self.strike,
            ulcolor: self.ulcolor,
            inverse: self.inverse,
            wide: self.wide,
        }
    }

    /// Whether two cells are the same.
    pub fn same(&self, other: &StyledCell) -> (r: bool)
        ensures
            r == (self@ == other@),
    {
        self.style() == other.style() && same_text(self.text.as_str(), other.text.as_str())
    }
}

impl Default for StyledCell {
    fn default() -> (r: Self)
        ensures
            r@ == blank_cell(),
    {
        StyledCell::styled(String::new(), CellStyle::default())
    }
}

impl Clone for StyledCell {
    fn clone(&self) -> (r: Self)
        ensures
            r@ == self@,
    {
        StyledCell::styled(self.text.clone(), self.style())
    }
}

/// An image on the screen.
#[derive(Debug, PartialEq, Eq)]
pub struct ImagePlacement {
    /// The top row; negative where the image has partly scrolled off the top.
    pub row: i16,
    pub col: u16,
    /// The size in cells, where the application gave one.
    pub cols: Option<u16>,
    pub rows: Option<u16>,
    pub mime: String,
    /// The image file in base64.
    pub data: std::sync::Arc<String>,
}

/// The model of [`ImagePlacement`].
pub ghost struct PlacementView {
    pub row: i16,
    pub col: u16,
    pub cols: Option<u16>,
    pub rows: Option<u16>,
    pub mime: Seq<char>,
    pub data: Seq<char>,
}

impl View for ImagePlacement {
    type V = PlacementView;

    open spec fn view(&self) -> PlacementView {
        PlacementView {
            row: self.row,
            col: self.col,
            cols: self.cols,
            rows: self.rows,
            mime: self.mime@,
            data: self.data@,
        }
    }
}

/// `std::sync::Arc::ptr_eq`: where two handles point to one allocation, what they point to
/// is the same. Two allocations may hold the same.
#[verifier::external_body]
fn one_allocation(a: &std::sync::Arc<String>, b: &std::sync::Arc<String>) -> (r: bool)
    ensures
        r ==> a@ == b@,
{
    std::sync::Arc::ptr_eq(a, b)
}

impl ImagePlacement {
    /// Whether two placements are the same. A payload that both share is not compared.
    pub fn same(&self, other: &ImagePlacement) -> (r: bool)
        ensures
            r == (self@ == other@),
    {
        self.row == other.row && self.col == other.col && self.cols == other.cols && self.rows
            == other.rows && same_text(self.mime.as_str(), other.mime.as_str()) && (one_allocation(
            &self.data,
            &other.data,
        ) || same_text(self.data.as_str(), other.data.as_str()))
    }
}

impl Clone for ImagePlacement {
    fn clone(&self) -> (r: Self)
        ensures
            r@ == self@,
    {
        ImagePlacement {
            row: self.row,
            col: self.col,
            cols: self.cols,
            rows: self.rows,
            mime: self.mime.clone(),
            data: self.data.clone(),
        }
    }
}

/// The screen. A row may be shorter than the screen is wide: the second column of a wide
/// cell has no cell of its own.
#[derive(Debug, PartialEq)]
pub struct Grid {
    /// The width of the screen.
    pub cols: u16,
    pub rows: Vec<Vec<StyledCell>>,
    /// The cursor's row and column, where it is shown.
    pub cursor: Option<(u16, u16)>,
    /// The cursor's shape, 0 to 6.
    pub cursor_style: u8,
    pub images: Vec<ImagePlacement>,
}

/// The model of a row.
pub open spec fn row_view(row: Seq<StyledCell>) -> Seq<CellView> {
    Seq::new(row.len(), |i: int| row[i]@)
}

/// The model of rows.
pub open spec fn rows_view(rows: Seq<Vec<StyledCell>>) -> Seq<Seq<CellView>> {
    Seq::new(rows.len(), |i: int| row_view(rows[i]@))
}

/// The model of placements.
pub open spec fn images_view(images: Seq<ImagePlacement>) -> Seq<PlacementView> {
    Seq::new(images.len(), |i: int| images[i]@)
}

/// The model of a row with one more cell.
pub proof fn lemma_row_push(s: Seq<StyledCell>, x: StyledCell)
    ensures
        row_view(s.push(x)) == row_view(s).push(x@),
{
    assert(row_view(s.push(x)) =~= row_view(s).push(x@));
}

/// The model of rows with one more row.
pub proof fn lemma_rows_push(s: Seq<Vec<StyledCell>>, x: Vec<StyledCell>)
    ensures
        rows_view(s.push(x)) == rows_view(s).push(row_view(x@)),
{
    assert(rows_view(s.push(x)) =~= rows_view(s).push(row_view(x@)));
}

/// The model of placements with one more.
pub proof fn lemma_images_push(s: Seq<ImagePlacement>, x: ImagePlacement)
    ensures
        images_view(s.push(x)) == images_view(s).push(x@),
{
    assert(images_view(s.push(x)) =~= images_view(s).push(x@));
}

/// The model of [`Grid`].
#[verifier::ext_equal]
pub ghost struct GridView {
    pub cols: u16,
    pub rows: Seq<Seq<CellView>>,
    pub cursor: Option<(u16, u16)>,
    pub cursor_style: u8,
    pub images: Seq<PlacementView>,
}

impl View for Grid {
    type V = GridView;

    open spec fn view(&self) -> GridView {
        GridView {
            cols: self.cols,
            rows: rows_view(self.rows@),
            cursor: self.cursor,
            cursor_style: self.cursor_style,
            images: images_view(self.images@),
        }
    }
}

/// A copy of a row.
pub fn clone_row(row: &Vec<StyledCell>) -> (r: Vec<StyledCell>)
    ensures
        row_view(r@) == row_view(row@),
{
    let mut out: Vec<StyledCell> = Vec::new();
    let mut i: usize = 0;
    while i < row.len()
        invariant
            i <= row@.len(),
            row_view(out@) == row_view(row@).take(i as int),
        decreases row@.len() - i,
    {
        let c = row[i].clone();
        proof {
            lemma_row_push(out@, c);
        }
        out.push(c);
        i += 1;
        assert(row_view(out@) =~= row_view(row@).take(i as int));
    }
    assert(row_view(row@).take(i as int) =~= row_view(row@));
    out
}

/// A copy of placements.
pub fn clone_images(images: &Vec<ImagePlacement>) -> (r: Vec<ImagePlacement>)
    ensures
        images_view(r@) == images_view(images@),
{
    let mut out: Vec<ImagePlacement> = Vec::new();
    let mut i: usize = 0;
    while i < images.len()
        invariant
            i <= images@.len(),
            images_view(out@) == images_view(images@).take(i as int),
        decreases images@.len() - i,
    {
        let c = images[i].clone();
        proof {
            lemma_images_push(out@, c);
        }
        out.push(c);
        i += 1;
        assert(images_view(out@) =~= images_view(images@).take(i as int));
    }
    assert(images_view(images@).take(i as int) =~= images_view(images@));
    out
}

impl Clone for Grid {
    fn clone(&self) -> (r: Self)
        ensures
            r@ == self@,
    {
        let mut rows: Vec<Vec<StyledCell>> = Vec::new();
        let mut i: usize = 0;
        while i < self.rows.len()
            invariant
                i <= self.rows@.len(),
                rows_view(rows@) == rows_view(self.rows@).take(i as int),
            decreases self.rows@.len() - i,
        {
            let c = clone_row(&self.rows[i]);
            proof {
                lemma_rows_push(rows@, c);
            }
            rows.push(c);
            i += 1;
            assert(rows_view(rows@) =~= rows_view(self.rows@).take(i as int));
        }
        assert(rows_view(self.rows@).take(i as int) =~= rows_view(self.rows@));
        Grid {
            cols: self.cols,
            rows,
            cursor: self.cursor,
            cursor_style: self.cursor_style,
            images: clone_images(&self.images),
        }
    }
}

/// What is shown: the screen, or a notice in its place.
#[derive(Debug, PartialEq)]
pub enum Frame {
    Screen(Grid),
    /// A notice, as HTML.
    Banner(String),
}

/// The model of [`Frame`].
pub ghost enum FrameView {
    Screen(GridView),
    Banner(Seq<char>),
}

impl View for Frame {
    type V = FrameView;

    open spec fn view(&self) -> FrameView {
        match self {
            Frame::Screen(g) => FrameView::Screen(g@),
            Frame::Banner(h) => FrameView::Banner(h@),
        }
    }
}

impl Clone for Frame {
    fn clone(&self) -> (r: Self)
        ensures
            r@ == self@,
    {
        match self {
            Frame::Screen(g) => Frame::Screen(g.clone()),
            Frame::Banner(h) => Frame::Banner(h.clone()),
        }
    }
}

} // verus!
