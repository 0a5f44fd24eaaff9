//! Rows of cells.
//!
//! A wide character takes two cells, the second of which is its continuation. Whatever is
//! written, shifted or erased, no half of one is left: a cell that loses its other half is
//! cleared.
use crate::vt::attrs::Attrs;
use crate::vt::cell::{empty_cell, is_wide_char, wide_char, Cell, CellState, Tag};
use vstd::prelude::*;

verus! {

/// The state of a cell.
pub type Glyph = CellState<Tag>;

/// A row of cells.
#[derive(Clone)]
pub struct Row {
    cells: Vec<Cell<Tag>>,
    wrapped: bool,
}

/// The model of [`Row`].
#[verifier::ext_equal]
pub ghost struct RowState {
    pub cells: Seq<Glyph>,
    /// The row goes on in the next one.
    pub wrapped: bool,
}

/// The models of cells.
pub open spec fn glyphs(s: Seq<Cell<Tag>>) -> Seq<Glyph> {
    Seq::new(s.len(), |i: int| s[i]@)
}

impl View for Row {
    type V = RowState;

    closed spec fn view(&self) -> RowState {
        RowState { cells: glyphs(self.cells@), wrapped: self.wrapped }
    }
}

/// A cell that was cleared.
pub open spec fn cleared(a: Attrs) -> Glyph {
    CellState { attrs: Attrs { link: None, ..a }, ..empty_cell() }
}

/// Whether a cell is half of a wide character without the other half.
pub open spec fn is_half(s: Seq<Glyph>, i: int) -> bool {
    ||| s[i].wide && !(i + 1 < s.len() && s[i + 1].continuation)
    ||| s[i].continuation && !(i > 0 && s[i - 1].wide)
}

/// A cell, cleared where it is a half.
pub open spec fn mended_at(s: Seq<Glyph>, i: int) -> Glyph {
    if is_half(s, i) {
        cleared(s[i].attrs)
    } else {
        s[i]
    }
}

/// Cells with every half cleared.
pub open spec fn mended(s: Seq<Glyph>) -> Seq<Glyph> {
    Seq::new(s.len(), |i: int| mended_at(s, i))
}

/// Whether no cell is a half, and none is both halves.
pub open spec fn whole(s: Seq<Glyph>) -> bool {
    forall|i: int|
        0 <= i < s.len() ==> !(#[trigger] is_half(s, i)) && !(s[i].wide && s[i].continuation)
}

/// Whether no cell is both halves of a wide character.
pub open spec fn one_sided(s: Seq<Glyph>) -> bool {
    forall|i: int| 0 <= i < s.len() ==> !((#[trigger] s[i]).wide && s[i].continuation)
}

/// Mending leaves no half, where the halves that are left out are not halves of each other.
pub proof fn lemma_mended_whole(s: Seq<Glyph>)
    requires
        one_sided(s),
    ensures
        whole(mended(s)),
{
    let t = mended(s);
    assert forall|i: int| 0 <= i < t.len() implies !(#[trigger] is_half(t, i)) && !(t[i].wide
        && t[i].continuation) by {
        assert(!(s[i].wide && s[i].continuation));
        if t[i].wide {
            assert(t[i] == s[i]);
            assert(s[i + 1].continuation);
            assert(!is_half(s, i + 1)) by {
                assert(!(s[i + 1].wide && s[i + 1].continuation));
            }
            assert(t[i + 1] == s[i + 1]);
        }
        if t[i].continuation {
            assert(t[i] == s[i]);
            assert(s[i - 1].wide);
            assert(!is_half(s, i - 1)) by {
                assert(!(s[i - 1].wide && s[i - 1].continuation));
            }
            assert(t[i - 1] == s[i - 1]);
        }
    }
}

/// A row of empty cells.
pub open spec fn blank_row(n: int) -> RowState {
    RowState { cells: Seq::new(n as nat, |i: int| empty_cell()), wrapped: false }
}

proof fn lemma_glyphs_push(s: Seq<Cell<Tag>>, c: Cell<Tag>)
    ensures
        glyphs(s.push(c)) == glyphs(s).push(c@),
{
    assert(glyphs(s.push(c)) =~= glyphs(s).push(c@));
}

impl Row {
    /// The cell at `col`.
    pub fn cell(&self, col: u16) -> (r: Option<&Cell<Tag>>)
        ensures
            r is Some <==> col < self@.cells.len(),
            r matches Some(c) ==> c@ == self@.cells[col as int],
    {
        if (col as usize) < self.cells.len() {
            Some(&self.cells[col as usize])
        } else {
            None
        }
    }

    /// The number of cells.
    pub fn len(&self) -> (r: u16)
        requires
            self@.cells.len() <= 0xffff,
        ensures
            r == self@.cells.len(),
    {
        self.cells.len() as u16
    }

    /// Whether the row goes on in the next one.
    pub fn is_wrapped(&self) -> (r: bool)
        ensures
            r == self@.wrapped,
    {
        self.wrapped
    }

    /// Note whether the row goes on in the next one.
    pub(crate) fn set_wrapped(&mut self, on: bool)
        ensures
            final(self)@ == (RowState { wrapped: on, ..old(self)@ }),
    {
        self.wrapped = on;
    }

    pub(crate) fn blank(n: u16) -> (r: Row)
        ensures
            r@ == blank_row(n as int),
    {
        let mut cells: Vec<Cell<Tag>> = Vec::new();
        let mut i: u16 = 0;
        assert(glyphs(cells@) =~= blank_row(0).cells);
        while i < n
            invariant
                i <= n,
                glyphs(cells@) == blank_row(i as int).cells,
            decreases n - i,
        {
            let c = Cell::new();
            proof {
                lemma_glyphs_push(cells@, c);
            }
            cells.push(c);
            i += 1;
            assert(glyphs(cells@) =~= blank_row(i as int).cells);
        }
        Row { cells, wrapped: false }
    }

    /// Clear the cells that are halves.
    pub(crate) fn mend(&mut self)
        ensures
            final(self)@ == (RowState { cells: mended(old(self)@.cells), ..old(self)@ }),
    {
        let ghost s = self@.cells;
        let n: usize = self.cells.len();
        let mut halves: Vec<usize> = Vec::new();
        let mut i: usize = 0;
        while i < n
            invariant
                i <= n,
                self@ == old(self)@,
                s == self@.cells,
                n == s.len(),
                n == self.cells@.len(),
                forall|k: int| 0 <= k < halves@.len() ==> 0 <= #[trigger] halves@[k] < i,
                forall|j: int|
                    0 <= j < i ==> (#[trigger] is_half(s, j) <==> exists|k: int|
                        0 <= k < halves@.len() && halves@[k] == j),
            decreases n - i,
        {
            let ghost before = halves@;
            assert(s[i as int] == self.cells@[i as int]@);
            let next = i + 1 < n && self.cells[i + 1].is_wide_continuation();
            let prev = i > 0 && self.cells[i - 1].is_wide();
            let half = (self.cells[i].is_wide() && !next) || (self.cells[i].is_wide_continuation()
                && !prev);
            assert(half == is_half(s, i as int)) by {
                if i + 1 < n {
                    assert(s[i + 1] == self.cells@[i + 1]@);
                }
                if i > 0 {
                    assert(s[i - 1] == self.cells@[i - 1]@);
                }
            }
            if half {
                halves.push(i);
                assert(halves@[before.len() as int] == i);
            }
            assert forall|j: int| 0 <= j < i + 1 implies (#[trigger] is_half(s, j) <==> exists|k: int|
                0 <= k < halves@.len() && halves@[k] == j) by {
                if j < i {
                    if exists|k: int| 0 <= k < before.len() && before[k] == j {
                        let k = choose|k: int| 0 <= k < before.len() && before[k] == j;
                        assert(halves@[k] == j);
                    }
                    if exists|k: int| 0 <= k < halves@.len() && halves@[k] == j {
                        let k = choose|k: int| 0 <= k < halves@.len() && halves@[k] == j;
                        assert(before[k] == j);
                    }
                }
            }
            i += 1;
        }
        let mut k: usize = 0;
        while k < halves.len()
            invariant
                k <= halves@.len(),
                n == s.len(),
                n == self.cells@.len(),
                self@.wrapped == old(self)@.wrapped,
                s == old(self)@.cells,
                forall|m: int| 0 <= m < halves@.len() ==> 0 <= #[trigger] halves@[m] < n,
                forall|j: int|
                    0 <= j < n ==> #[trigger] self@.cells[j] == (if exists|m: int|
                        0 <= m < k && halves@[m] == j {
                        cleared(s[j].attrs)
                    } else {
                        s[j]
                    }),
            decreases halves@.len() - k,
        {
            let h: usize = halves[k];
            let ghost was = self@.cells;
            assert(was[h as int] == self.cells@[h as int]@);
            let a = *self.cells[h].attrs();
            assert(a.fgcolor == s[h as int].attrs.fgcolor && a.bgcolor == s[h as int].attrs.bgcolor
                && a.ulcolor == s[h as int].attrs.ulcolor && a.mode == s[h as int].attrs.mode);
            let mut c = Cell::new();
            c.clear(a);
            self.cells.set(h, c);
            assert forall|j: int| 0 <= j < n implies #[trigger] self@.cells[j] == (if exists|m: int|
                0 <= m < k + 1 && halves@[m] == j {
                cleared(s[j].attrs)
            } else {
                s[j]
            }) by {
                if j == h {
                    assert(halves@[k as int] == j);
                } else {
                    assert(self@.cells[j] == was[j]);
                    if exists|m: int| 0 <= m < k && halves@[m] == j {
                        let m = choose|m: int| 0 <= m < k && halves@[m] == j;
                        assert(0 <= m < k + 1 && halves@[m] == j);
                    }
                    if exists|m: int| 0 <= m < k + 1 && halves@[m] == j {
                        let m = choose|m: int| 0 <= m < k + 1 && halves@[m] == j;
                        assert(m != k);
                    }
                }
            }
            k += 1;
        }
        assert forall|j: int| 0 <= j < n implies self@.cells[j] == mended(s)[j] by {
            assert(is_half(s, j) <==> exists|m: int| 0 <= m < halves@.len() && halves@[m] == j);
        }
        assert(self@.cells =~= mended(s));
    }

    /// Put a character in the cell at `col`, and in the next one where it is wide.
    pub(crate) fn put(&mut self, col: u16, c: char, a: Attrs)
        requires
            whole(old(self)@.cells),
            col < old(self)@.cells.len(),
            is_wide_char(c) ==> col + 1 < old(self)@.cells.len(),
        ensures
            final(self)@ == (RowState { cells: written(old(self)@.cells, col as int, c, a), ..old(self)@ }),
            whole(final(self)@.cells),
    {
        let ghost s = self@.cells;
        let k: usize = col as usize;
        let mut x = Cell::new();
        x.set(c, a);
        self.cells.set(k, x);
        assert(self@.cells =~= s.update(k as int, drawn(c, a)));
        if wide_char(c) {
            let mut y = Cell::new();
            y.set_wide_continuation(true);
            let ghost was = self@.cells;
            self.cells.set(k + 1, y);
            assert(self@.cells =~= was.update(k + 1, second_half()));
        }
        let ghost t = self@.cells;
        assert(t == unmended(s, col as int, c, a));
        assert(one_sided(t)) by {
            assert forall|i: int| 0 <= i < t.len() implies !((#[trigger] t[i]).wide
                && t[i].continuation) by {
                assert(!is_half(s, i));
            }
        }
        self.mend();
        proof {
            lemma_mended_whole(t);
        }
    }

    /// Put a zero-width character behind what the cell at `col` holds.
    pub(crate) fn append(&mut self, col: u16, c: char)
        requires
            whole(old(self)@.cells),
            col < old(self)@.cells.len(),
        ensures
            final(self)@ == (RowState {
                cells: old(self)@.cells.update(
                    col as int,
                    old(self)@.cells[col as int].appended(c),
                ),
                ..old(self)@
            }),
            whole(final(self)@.cells),
    {
        let ghost s = self@.cells;
        let k: usize = col as usize;
        assert(s[k as int] == self.cells@[k as int]@);
        let mut x = self.cells.remove(k);
        x.append(c);
        self.cells.insert(k, x);
        assert(self@.cells =~= s.update(k as int, s[k as int].appended(c)));
        proof {
            let t = self@.cells;
            assert forall|i: int| 0 <= i < t.len() implies !(#[trigger] is_half(t, i)) && !(t[i].wide
                && t[i].continuation) by {
                assert(!is_half(s, i));
            }
        }
    }

    /// Erase the cells from `a` to `b`.
    pub(crate) fn erase(&mut self, a: u16, b: u16, attrs: Attrs)
        requires
            whole(old(self)@.cells),
            a <= b <= old(self)@.cells.len(),
        ensures
            final(self)@ == erased(old(self)@, a as int, b as int, attrs),
            whole(final(self)@.cells),
    {
        let ghost s = self@.cells;
        let mut i: usize = a as usize;
        while i < b as usize
            invariant
                a <= i <= b <= s.len(),
                self.cells@.len() == s.len(),
                self@.wrapped == old(self)@.wrapped,
                forall|j: int|
                    0 <= j < s.len() ==> #[trigger] self@.cells[j] == (if a <= j < i {
                        cleared(attrs)
                    } else {
                        s[j]
                    }),
            decreases b - i,
        {
            let ghost was = self@.cells;
            let mut x = Cell::new();
            x.clear(attrs);
            self.cells.set(i, x);
            assert forall|j: int| 0 <= j < s.len() implies #[trigger] self@.cells[j] == (if a <= j < i
                + 1 {
                cleared(attrs)
            } else {
                s[j]
            }) by {
                if j != i {
                    assert(self@.cells[j] == was[j]);
                }
            }
            i += 1;
        }
        let ghost t = self@.cells;
        if b as usize == self.cells.len() {
            self.wrapped = false;
        }
        assert(self@.cells == t);
        assert(t =~= Seq::new(
            s.len(),
            |j: int|
                if a <= j < b {
                    cleared(attrs)
                } else {
                    s[j]
                },
        ));
        assert(one_sided(t)) by {
            assert forall|j: int| 0 <= j < t.len() implies !((#[trigger] t[j]).wide
                && t[j].continuation) by {
                assert(!is_half(s, j));
            }
        }
        self.mend();
        proof {
            lemma_mended_whole(t);
        }
    }

    /// Tag `n` cells from `col` on, as far as there are any, as those of one row of an image.
    pub(crate) fn stamp(&mut self, col: u16, n: u16, mark: char, row: u16)
        requires
            whole(old(self)@.cells),
        ensures
            final(self)@ == (RowState {
                cells: stamped(old(self)@.cells, col as int, n as int, mark, row),
                ..old(self)@
            }),
            whole(final(self)@.cells),
    {
        let ghost s = self@.cells;
        let mut k: u16 = 0;
        while k < n && (col as usize) + (k as usize) < self.cells.len()
            invariant
                k <= n,
                self.cells@.len() == s.len(),
                self@.wrapped == old(self)@.wrapped,
                forall|j: int|
                    0 <= j < s.len() ==> #[trigger] self@.cells[j] == (if col <= j < col + k {
                        tagged(s[j], mark, row, j - col)
                    } else {
                        s[j]
                    }),
            decreases n - k,
        {
            let i: usize = (col as usize) + (k as usize);
            let ghost was = self@.cells;
            assert(was[i as int] == self.cells@[i as int]@);
            let mut x = self.cells.remove(i);
            x.set_data(Some(Tag { mark, row, col: k }));
            self.cells.insert(i, x);
            assert forall|j: int| 0 <= j < s.len() implies #[trigger] self@.cells[j] == (if col
                <= j < col + k + 1 {
                tagged(s[j], mark, row, j - col)
            } else {
                s[j]
            }) by {
                if j != i {
                    assert(self@.cells[j] == was[j]);
                }
            }
            k += 1;
        }
        let ghost t = self@.cells;
        assert(t =~= stamped(s, col as int, n as int, mark, row));
        assert forall|j: int| 0 <= j < t.len() implies !(#[trigger] is_half(t, j)) && !(t[j].wide
            && t[j].continuation) by {
            assert(!is_half(s, j));
        }
        assert(whole(t));
    }

    /// Shift the cells from `col` on to the right by `k`; empty ones come in.
    pub(crate) fn insert(&mut self, col: u16, k: u16)
        requires
            whole(old(self)@.cells),
            col as int + k as int <= old(self)@.cells.len() <= 0xffff,
        ensures
            final(self)@ == (RowState {
                cells: shifted_right(old(self)@.cells, col as int, k as int),
                ..old(self)@
            }),
            whole(final(self)@.cells),
    {
        let ghost s = self@.cells;
        let n: usize = self.cells.len();
        let mut i: u16 = 0;
        while i < k
            invariant
                i <= k,
                n == s.len(),
                n <= 0xffff,
                col + k <= n,
                self.cells@.len() == n + i,
                self@.wrapped == old(self)@.wrapped,
                forall|j: int|
                    0 <= j < n + i ==> #[trigger] self@.cells[j] == (if j < col {
                        s[j]
                    } else if j < col + i {
                        empty_cell()
                    } else {
                        s[j - i]
                    }),
            decreases k - i,
        {
            let ghost was = self@.cells;
            self.cells.insert(col as usize, Cell::new());
            assert forall|j: int| 0 <= j < n + i + 1 implies #[trigger] self@.cells[j] == (if j < col {
                s[j]
            } else if j < col + i + 1 {
                empty_cell()
            } else {
                s[j - i - 1]
            }) by {
                if j < col {
                    assert(self@.cells[j] == was[j]);
                } else if j > col {
                    assert(self@.cells[j] == was[j - 1]);
                }
            }
            i += 1;
        }
        let ghost grown = self@.cells;
        self.cells.truncate(n);
        let ghost t = self@.cells;
        assert(t =~= grown.take(n as int));
        assert(t =~= Seq::new(
            s.len(),
            |j: int|
                if j < col {
                    s[j]
                } else if j < col + k {
                    empty_cell()
                } else {
                    s[j - k]
                },
        ));
        assert(one_sided(t)) by {
            assert forall|j: int| 0 <= j < t.len() implies !((#[trigger] t[j]).wide
                && t[j].continuation) by {
                if j < col {
                    assert(!is_half(s, j));
                } else if j >= col + k {
                    assert(!is_half(s, j - k));
                }
            }
        }
        self.mend();
        proof {
            lemma_mended_whole(t);
        }
    }

    /// Shift the cells behind `col + k` to `col`; empty ones come in at the end.
    pub(crate) fn remove(&mut self, col: u16, k: u16)
        requires
            whole(old(self)@.cells),
            col as int + k as int <= old(self)@.cells.len() <= 0xffff,
        ensures
            final(self)@ == (RowState {
                cells: shifted_left(old(self)@.cells, col as int, k as int),
                ..old(self)@
            }),
            whole(final(self)@.cells),
    {
        let ghost s = self@.cells;
        let n: usize = self.cells.len();
        let mut i: u16 = 0;
        while i < k
            invariant
                i <= k,
                n == s.len(),
                n <= 0xffff,
                col + k <= n,
                self.cells@.len() == n,
                self@.wrapped == old(self)@.wrapped,
                forall|j: int|
                    0 <= j < n ==> #[trigger] self@.cells[j] == (if j < col {
                        s[j]
                    } else if j + i < n {
                        s[j + i]
                    } else {
                        empty_cell()
                    }),
            decreases k - i,
        {
            let ghost was = self@.cells;
            let _gone = self.cells.remove(col as usize);
            self.cells.push(Cell::new());
            assert forall|j: int| 0 <= j < n implies #[trigger] self@.cells[j] == (if j < col {
                s[j]
            } else if j + i + 1 < n {
                s[j + i + 1]
            } else {
                empty_cell()
            }) by {
                if j < col {
                    assert(self@.cells[j] == was[j]);
                } else if j + 1 < n {
                    assert(self@.cells[j] == was[j + 1]);
                }
            }
            i += 1;
        }
        let ghost t = self@.cells;
        assert(t =~= Seq::new(
            s.len(),
            |j: int|
                if j < col {
                    s[j]
                } else if j + k < s.len() {
                    s[j + k]
                } else {
                    empty_cell()
                },
        ));
        assert(one_sided(t)) by {
            assert forall|j: int| 0 <= j < t.len() implies !((#[trigger] t[j]).wide
                && t[j].continuation) by {
                if j < col {
                    assert(!is_half(s, j));
                } else if j + k < s.len() {
                    assert(!is_half(s, j + k));
                }
            }
        }
        self.mend();
        proof {
            lemma_mended_whole(t);
        }
    }

    /// Make the row `n` cells long; a row that is cut does not go on.
    pub(crate) fn resize(&mut self, n: u16)
        requires
            whole(old(self)@.cells),
        ensures
            final(self)@ == resized(old(self)@, n as int),
            whole(final(self)@.cells),
    {
        let ghost s = self@.cells;
        if (n as usize) < self.cells.len() {
            self.wrapped = false;
        }
        self.cells.truncate(n as usize);
        let ghost cut = self@.cells;
        assert(forall|j: int| 0 <= j < cut.len() ==> #[trigger] cut[j] == s[j]);
        while self.cells.len() < n as usize
            invariant
                self.cells@.len() <= n || self.cells@.len() == cut.len(),
                cut.len() <= self.cells@.len(),
                cut.len() <= n,
                self@.wrapped == (if n < s.len() {
                    false
                } else {
                    old(self)@.wrapped
                }),
                forall|j: int|
                    0 <= j < self.cells@.len() ==> #[trigger] self@.cells[j] == (if j < cut.len() {
                        cut[j]
                    } else {
                        empty_cell()
                    }),
            decreases n - self.cells@.len(),
        {
            let ghost was = self@.cells;
            let c = Cell::new();
            proof {
                lemma_glyphs_push(self.cells@, c);
            }
            self.cells.push(c);
            assert(self@.cells =~= was.push(empty_cell()));
        }
        let ghost t = self@.cells;
        assert(t =~= Seq::new(
            n as nat,
            |j: int|
                if j < s.len() {
                    s[j]
                } else {
                    empty_cell()
                },
        ));
        assert(one_sided(t)) by {
            assert forall|j: int| 0 <= j < t.len() implies !((#[trigger] t[j]).wide
                && t[j].continuation) by {
                if j < s.len() {
                    assert(!is_half(s, j));
                }
            }
        }
        self.mend();
        proof {
            lemma_mended_whole(t);
        }
    }
}

/// A cell with a character.
pub open spec fn drawn(c: char, a: Attrs) -> Glyph {
    CellState {
        text: seq![c],
        wide: is_wide_char(c),
        continuation: false,
        attrs: a,
        data: None,
    }
}

/// A cell with the tag of an image.
pub open spec fn tagged(c: Glyph, mark: char, row: u16, col: int) -> Glyph {
    CellState { data: Some(Tag { mark, row, col: col as u16 }), ..c }
}

/// Cells of which `n` from `col` on are tagged as those of one row of an image.
pub open spec fn stamped(s: Seq<Glyph>, col: int, n: int, mark: char, row: u16) -> Seq<Glyph> {
    Seq::new(
        s.len(),
        |j: int|
            if col <= j < col + n {
                tagged(s[j], mark, row, j - col)
            } else {
                s[j]
            },
    )
}

/// The second cell of a wide character.
pub open spec fn second_half() -> Glyph {
    CellState { continuation: true, ..empty_cell() }
}

/// Cells with a character put in, before halves are cleared.
pub open spec fn unmended(s: Seq<Glyph>, col: int, c: char, a: Attrs) -> Seq<Glyph> {
    if is_wide_char(c) {
        s.update(col, drawn(c, a)).update(col + 1, second_half())
    } else {
        s.update(col, drawn(c, a))
    }
}

/// Cells with a character put in.
pub open spec fn written(s: Seq<Glyph>, col: int, c: char, a: Attrs) -> Seq<Glyph> {
    mended(unmended(s, col, c, a))
}

/// A row with the cells from `a` to `b` erased; one whose last cell is erased does not go on.
pub open spec fn erased(r: RowState, a: int, b: int, attrs: Attrs) -> RowState {
    RowState {
        cells: mended(
            Seq::new(
                r.cells.len(),
                |j: int|
                    if a <= j < b {
                        cleared(attrs)
                    } else {
                        r.cells[j]
                    },
            ),
        ),
        wrapped: r.wrapped && b < r.cells.len(),
    }
}

/// Cells with those from `col` on shifted right by `k`.
pub open spec fn shifted_right(s: Seq<Glyph>, col: int, k: int) -> Seq<Glyph> {
    mended(
        Seq::new(
            s.len(),
            |j: int|
                if j < col {
                    s[j]
                } else if j < col + k {
                    empty_cell()
                } else {
                    s[j - k]
                },
        ),
    )
}

/// Cells with those behind `col + k` shifted to `col`.
pub open spec fn shifted_left(s: Seq<Glyph>, col: int, k: int) -> Seq<Glyph> {
    mended(
        Seq::new(
            s.len(),
            |j: int|
                if j < col {
                    s[j]
                } else if j + k < s.len() {
                    s[j + k]
                } else {
                    empty_cell()
                },
        ),
    )
}

/// A row of another length.
pub open spec fn resized(r: RowState, n: int) -> RowState {
    RowState {
        cells: mended(
            Seq::new(
                n as nat,
                |j: int|
                    if j < r.cells.len() {
                        r.cells[j]
                    } else {
                        empty_cell()
                    },
            ),
        ),
        wrapped: r.wrapped && n >= r.cells.len(),
    }
}

} // verus!
