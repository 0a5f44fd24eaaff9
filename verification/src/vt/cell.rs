//! One cell of a terminal screen.
use crate::text::same_text;
use crate::vt::attrs::{no_attrs, Attrs, Color};
use unicode_width::UnicodeWidthChar;
use vstd::prelude::*;
use vstd::string::*;
use vstd::utf8::encode_utf8;

verus! {

/// How many columns a character takes; `None` for a control character.
pub uninterp spec fn char_columns(c: char) -> Option<usize>;

/// `unicode_width::UnicodeWidthChar::width`: the result is [`char_columns`].
#[verifier::external_body]
pub(crate) fn char_width(c: char) -> (r: Option<usize>)
    ensures
        r == char_columns(c),
{
    c.width()
}

/// Whether a character takes more than one column.
pub open spec fn is_wide_char(c: char) -> bool {
    match char_columns(c) {
        Some(w) => w > 1,
        None => false,
    }
}

/// Whether a character takes more than one column.
pub fn wide_char(c: char) -> (r: bool)
    ensures
        r == is_wide_char(c),
{
    match char_width(c) {
        Some(w) => w > 1,
        None => false,
    }
}

/// A cell holds no further character once its text has this many bytes.
pub const FULL_BYTES: usize = 18;

/// What an image leaves in each cell that it covers: the image's mark, and how far below and to
/// the right of its top left the cell is. Any cell that is left of an image tells where its top
/// left is.
#[derive(Debug, Clone, Copy, PartialEq, Eq, Structural)]
pub struct Tag {
    pub mark: char,
    pub row: u16,
    pub col: u16,
}

/// A cell: a character, the zero-width characters after it, its attributes, and a slot for
/// what an overlay puts there.
#[derive(Clone)]
pub struct Cell<T> {
    text: String,
    wide: bool,
    continuation: bool,
    attrs: Attrs,
    data: Option<T>,
}

/// The model of [`Cell`].
#[verifier::ext_equal]
pub ghost struct CellState<T> {
    pub text: Seq<char>,
    pub wide: bool,
    /// The cell is the second column of a wide one.
    pub continuation: bool,
    pub attrs: Attrs,
    pub data: Option<T>,
}

/// An empty cell.
pub open spec fn empty_cell<T>() -> CellState<T> {
    CellState {
        text: Seq::empty(),
        wide: false,
        continuation: false,
        attrs: no_attrs(),
        data: None,
    }
}

impl<T> CellState<T> {
    /// The cell with one more character: a blank stands for the missing base of a
    /// zero-width character, and a full cell takes none.
    pub open spec fn appended(self, c: char) -> CellState<T> {
        if encode_utf8(self.text).len() >= FULL_BYTES {
            self
        } else if self.text.len() == 0 {
            CellState { text: seq![' ', c], ..self }
        } else {
            CellState { text: self.text.push(c), ..self }
        }
    }
}

impl<T> View for Cell<T> {
    type V = CellState<T>;

    closed spec fn view(&self) -> CellState<T> {
        CellState {
            text: self.text@,
            wide: self.wide,
            continuation: self.continuation,
            attrs: self.attrs,
            data: self.data,
        }
    }
}

proof fn lemma_encoded_empty(s: Seq<char>)
    ensures
        (encode_utf8(s).len() == 0) == (s.len() == 0),
{
    if s.len() > 0 {
        vstd::utf8::encode_utf8_first_scalar(s);
        assert(encode_utf8(s).len() > 0);
    }
}

impl<T> Cell<T> {
    /// An empty cell.
    pub fn new() -> (r: Self)
        ensures
            r@ == empty_cell::<T>(),
    {
        Cell {
            text: String::new(),
            wide: false,
            continuation: false,
            attrs: Attrs::default(),
            data: None,
        }
    }

    /// Whether two cells look the same, whatever their slots hold.
    pub fn same(&self, other: &Self) -> (r: bool)
        ensures
            r == (self@.text == other@.text && self@.wide == other@.wide && self@.continuation
                == other@.continuation && self@.attrs == other@.attrs),
    {
        self.wide == other.wide && self.continuation == other.continuation && self.attrs
            == other.attrs && same_text(self.text.as_str(), other.text.as_str())
    }

    /// Put a character in the cell, in place of all it held.
    pub fn set(&mut self, c: char, a: Attrs)
        ensures
            final(self)@ == set_to::<T>(c, a),
    {
        let mut text = String::new();
        text.push(c);
        assert(text@ =~= seq![c]);
        self.text = text;
        self.wide = wide_char(c);
        self.continuation = false;
        self.attrs = a;
        self.data = None;
    }

    /// Put a zero-width character behind what the cell holds.
    pub fn append(&mut self, c: char)
        ensures
            final(self)@ == old(self)@.appended(c),
    {
        let n: usize = self.text.as_str().as_bytes().len();
        proof {
            lemma_encoded_empty(self.text@);
        }
        if n >= FULL_BYTES {
            return;
        }
        if n == 0 {
            self.text.push(' ');
        }
        self.text.push(c);
        assert(self@.text =~= old(self)@.appended(c).text);
    }

    /// Erase the cell: it keeps attributes, but no link and nothing in its slot.
    pub fn clear(&mut self, attrs: Attrs)
        ensures
            final(self)@ == (CellState::<T> {
                attrs: Attrs { link: None, ..attrs },
                ..empty_cell()
            }),
    {
        self.text = String::new();
        self.wide = false;
        self.continuation = false;
        self.attrs = attrs;
        self.attrs.link = None;
        self.data = None;
    }

    /// What the slot holds.
    pub fn data(&self) -> (r: Option<&T>)
        ensures
            r is Some <==> self@.data is Some,
            r matches Some(d) ==> self@.data == Some(*d),
    {
        self.data.as_ref()
    }

    /// Fill or empty the slot.
    pub fn set_data(&mut self, data: Option<T>)
        ensures
            final(self)@ == (CellState { data, ..old(self)@ }),
    {
        self.data = data;
    }

    /// The cell's text.
    pub fn contents(&self) -> (r: &str)
        ensures
            r@ == self@.text,
    {
        self.text.as_str()
    }

    pub fn has_contents(&self) -> (r: bool)
        ensures
            r == (self@.text.len() > 0),
    {
        !self.text.as_str().is_empty()
    }

    pub fn is_wide(&self) -> (r: bool)
        ensures
            r == self@.wide,
    {
        self.wide
    }

    pub fn is_wide_continuation(&self) -> (r: bool)
        ensures
            r == self@.continuation,
    {
        self.continuation
    }

    /// Make the cell the second column of a wide one, or not.
    pub fn set_wide_continuation(&mut self, on: bool)
        ensures
            final(self)@ == (CellState { continuation: on, ..old(self)@ }),
    {
        self.continuation = on;
    }

    pub fn attrs(&self) -> (r: &Attrs)
        ensures
            *r == self@.attrs,
    {
        &self.attrs
    }

    pub fn fgcolor(&self) -> (r: Color)
        ensures
            r == self@.attrs.fgcolor,
    {
        self.attrs.fgcolor
    }

    pub fn bgcolor(&self) -> (r: Color)
        ensures
            r == self@.attrs.bgcolor,
    {
        self.attrs.bgcolor
    }

    pub fn bold(&self) -> (r: bool)
        ensures
            r == self@.attrs.is_bold(),
    {
        self.attrs.bold()
    }

    pub fn dim(&self) -> (r: bool)
        ensures
            r == self@.attrs.is_dim(),
    {
        self.attrs.dim()
    }

    pub fn italic(&self) -> (r: bool)
        ensures
            r == (self@.attrs.mode & crate::vt::attrs::TEXT_MODE_ITALIC != 0),
    {
        self.attrs.italic()
    }

    pub fn underline(&self) -> (r: bool)
        ensures
            r == (self@.attrs.underlined() != 0),
    {
        self.attrs.underline()
    }

    pub fn underline_style(&self) -> (r: u8)
        ensures
            r == self@.attrs.underlined(),
    {
        self.attrs.underline_style()
    }

    pub fn strikethrough(&self) -> (r: bool)
        ensures
            r == (self@.attrs.mode & crate::vt::attrs::TEXT_MODE_STRIKETHROUGH != 0),
    {
        self.attrs.strikethrough()
    }

    pub fn ulcolor(&self) -> (r: Color)
        ensures
            r == self@.attrs.ulcolor,
    {
        self.attrs.ulcolor
    }

    pub fn link(&self) -> (r: Option<u32>)
        ensures
            r == self@.attrs.link,
    {
        self.attrs.link
    }

    pub fn inverse(&self) -> (r: bool)
        ensures
            r == (self@.attrs.mode & crate::vt::attrs::TEXT_MODE_INVERSE != 0),
    {
        self.attrs.inverse()
    }

    pub fn concealed(&self) -> (r: bool)
        ensures
            r == (self@.attrs.mode & crate::vt::attrs::TEXT_MODE_CONCEALED != 0),
    {
        self.attrs.concealed()
    }

    pub fn blink(&self) -> (r: bool)
        ensures
            r == (self@.attrs.mode & crate::vt::attrs::TEXT_MODE_BLINK != 0),
    {
        self.attrs.blink()
    }
}

/// A cell with characters appended, in turn.
pub open spec fn all_appended<T>(c: CellState<T>, zs: Seq<char>) -> CellState<T>
    decreases zs.len(),
{
    if zs.len() == 0 {
        c
    } else {
        all_appended(c, zs.drop_last()).appended(zs.last())
    }
}

/// The cell after a character is put in.
pub open spec fn set_to<T>(c: char, a: Attrs) -> CellState<T> {
    CellState {
        text: seq![c],
        wide: is_wide_char(c),
        continuation: false,
        attrs: a,
        data: None,
    }
}

proof fn lemma_char_bytes(s: Seq<char>, z: char)
    ensures
        encode_utf8(s).len() < encode_utf8(s.push(z)).len() <= encode_utf8(s).len() + 4,
{
    let one = seq![z];
    assert(s.push(z) =~= s + one);
    crate::proto::lemma_encode_concat(s, one);
    assert(one.drop_first() =~= Seq::<char>::empty());
    assert(encode_utf8(one.drop_first()) =~= Seq::<u8>::empty());
    assert(encode_utf8(one) =~= vstd::utf8::encode_scalar(z as u32));
}

/// The text of a cell is the character that was put in and those appended to it, up to the one
/// that found the cell full; it has at most 21 bytes, and is full where one was left out.
pub proof fn law_cell_holds_a_prefix<T>(c: char, a: Attrs, zs: Seq<char>)
    ensures
        ({
            let cell = all_appended(set_to::<T>(c, a), zs);
            let n = cell.text.len() - 1;
            &&& 0 <= n <= zs.len()
            &&& cell.text == seq![c] + zs.take(n)
            &&& encode_utf8(cell.text).len() <= 21
            &&& n < zs.len() ==> encode_utf8(cell.text).len() >= FULL_BYTES
            &&& cell == (CellState { text: cell.text, ..set_to::<T>(c, a) })
        }),
    decreases zs.len(),
{
    let start = set_to::<T>(c, a);
    if zs.len() == 0 {
        assert(zs.take(0) =~= Seq::<char>::empty());
        assert(seq![c] =~= seq![c] + zs.take(0));
        lemma_char_bytes(Seq::empty(), c);
        assert(Seq::<char>::empty().push(c) =~= seq![c]);
        assert(encode_utf8(Seq::<char>::empty()).len() == 0);
    } else {
        let d = zs.drop_last();
        law_cell_holds_a_prefix::<T>(c, a, d);
        let before = all_appended(start, d);
        let n = before.text.len() - 1;
        assert(zs.take(n) =~= d.take(n));
        if encode_utf8(before.text).len() < FULL_BYTES {
            assert(n == d.len());
            lemma_char_bytes(before.text, zs.last());
            assert(before.text.push(zs.last()) =~= seq![c] + zs.take(n + 1));
        }
    }
}

} // verus!
