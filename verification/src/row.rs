//! One grid row: an ordered sequence of cells plus a wrap flag, with the
//! text, formatting and diff primitives the grid delegates to.

use vstd::prelude::*;

use crate::attrs::{sgr, Attrs, Color};
use crate::cell::Cell;

verus! {

/// The mathematical model of a row: its cells and whether its content
/// continues onto the next row without a line break.
#[verifier::ext_equal]
pub ghost struct RowView {
    pub cells: Seq<Cell>,
    pub wrapped: bool,
}

impl RowView {
    pub open spec fn wf(self) -> bool {
        forall|i: int| 0 <= i < self.cells.len() ==> self.cells[i].wf()
    }

    /// A row of `n` blank cells over background `bg`, not wrapped.
    pub open spec fn blank(n: nat, bg: Color) -> RowView {
        RowView { cells: Seq::new(n, |i: int| Cell::spec_blank(bg)), wrapped: false }
    }
}

/// An ordered, fixed-width sequence of [`Cell`]s plus a wrap flag.
#[derive(Clone, Debug)]
pub struct Row {
    pub cells: Vec<Cell>,
    pub wrapped: bool,
}

impl View for Row {
    type V = RowView;

    open spec fn view(&self) -> RowView {
        RowView { cells: self.cells@, wrapped: self.wrapped }
    }
}

/// The models of a sequence of rows.
pub open spec fn views(rows: Seq<Row>) -> Seq<RowView> {
    rows.map_values(|r: Row| r@)
}

pub proof fn lemma_views_index(rows: Seq<Row>, i: int)
    requires
        0 <= i < rows.len(),
    ensures
        views(rows)[i] == rows[i]@,
{
}

pub proof fn lemma_blank_ok(n: nat, bg: Color)
    ensures
        RowView::blank(n, bg).cells.len() == n,
        RowView::blank(n, bg).wf(),
        !RowView::blank(n, bg).wrapped,
{
}

pub proof fn lemma_views_update(rows: Seq<Row>, i: int, r: Row)
    requires
        0 <= i < rows.len(),
    ensures
        views(rows.update(i, r)) == views(rows).update(i, r@),
{
    assert(views(rows.update(i, r)) =~= views(rows).update(i, r@));
}

pub proof fn lemma_views_push(rows: Seq<Row>, r: Row)
    ensures
        views(rows.push(r)) == views(rows).push(r@),
{
    assert(views(rows.push(r)) =~= views(rows).push(r@));
}

pub proof fn lemma_views_insert(rows: Seq<Row>, i: int, r: Row)
    requires
        0 <= i <= rows.len(),
    ensures
        views(rows.insert(i, r)) == views(rows).insert(i, r@),
{
    rows.insert_ensures(i, r);
    views(rows).insert_ensures(i, r@);
    assert(views(rows.insert(i, r)) =~= views(rows).insert(i, r@));
}

pub proof fn lemma_views_remove(rows: Seq<Row>, i: int)
    requires
        0 <= i < rows.len(),
    ensures
        views(rows.remove(i)) == views(rows).remove(i),
{
    rows.remove_ensures(i);
    views(rows).remove_ensures(i);
    assert(views(rows.remove(i)) =~= views(rows).remove(i));
}

pub proof fn lemma_views_subrange(rows: Seq<Row>, lo: int, hi: int)
    requires
        0 <= lo <= hi <= rows.len(),
    ensures
        views(rows.subrange(lo, hi)) == views(rows).subrange(lo, hi),
{
    assert(views(rows.subrange(lo, hi)) =~= views(rows).subrange(lo, hi));
}

/// The column range `[lo, hi)` that `start` and `width` select in a row of
/// length `cells.len()`, both ends clipped to the row.
pub open spec fn clip_range(cells: Seq<Cell>, start: u16, width: u16) -> (int, int) {
    let len = cells.len() as int;
    let lo = if start as int <= len {
        start as int
    } else {
        len
    };
    let hi = if start as int + width as int <= len {
        start as int + width as int
    } else {
        len
    };
    (lo, hi)
}

/// The index just past the last cell in `cells[lo..hi]` that is not the
/// plain default blank; `lo` when all of them are.
pub open spec fn fmt_end(cells: Seq<Cell>, lo: int, hi: int) -> int
    decreases hi - lo,
{
    if hi <= lo {
        lo
    } else if cells[hi - 1] == Cell::spec_blank(Color::Default) {
        fmt_end(cells, lo, hi - 1)
    } else {
        hi
    }
}

/// The bytes one cell contributes when written with running attribute state
/// `attrs`: an attribute escape when its style differs, then its character.
pub open spec fn fmt_step(cell: Cell, attrs: Attrs) -> Seq<u8> {
    (if cell.attrs != attrs {
        sgr(cell.attrs)
    } else {
        seq![]
    }) + seq![cell.ch]
}

/// The formatted bytes for `cells[lo..end]`, entered with attribute state
/// `attrs`.
pub open spec fn fmt_bytes(cells: Seq<Cell>, lo: int, end: int, attrs: Attrs) -> Seq<u8>
    decreases end - lo,
{
    if lo >= end {
        seq![]
    } else {
        fmt_step(cells[lo], attrs) + fmt_bytes(cells, lo + 1, end, cells[lo].attrs)
    }
}

/// The attribute state after writing `cells[lo..end]`, entered with `attrs`.
pub open spec fn fmt_attrs(cells: Seq<Cell>, lo: int, end: int, attrs: Attrs) -> Attrs
    decreases end - lo,
{
    if lo >= end {
        attrs
    } else {
        fmt_attrs(cells, lo + 1, end, cells[lo].attrs)
    }
}

pub proof fn lemma_fmt_snoc(cells: Seq<Cell>, lo: int, i: int, attrs: Attrs)
    requires
        lo <= i,
    ensures
        fmt_bytes(cells, lo, i + 1, attrs) == fmt_bytes(cells, lo, i, attrs) + fmt_step(
            cells[i],
            fmt_attrs(cells, lo, i, attrs),
        ),
        fmt_attrs(cells, lo, i + 1, attrs) == cells[i].attrs,
    decreases i - lo,
{
    assert(fmt_bytes(cells, lo, i + 1, attrs) == fmt_step(cells[lo], attrs) + fmt_bytes(
        cells,
        lo + 1,
        i + 1,
        cells[lo].attrs,
    ));
    assert(fmt_attrs(cells, lo, i + 1, attrs) == fmt_attrs(cells, lo + 1, i + 1, cells[lo].attrs));
    if lo == i {
        assert(fmt_bytes(cells, lo + 1, i + 1, cells[lo].attrs) == Seq::<u8>::empty());
        assert(fmt_attrs(cells, lo + 1, i + 1, cells[lo].attrs) == cells[lo].attrs);
        assert(fmt_bytes(cells, lo, i, attrs) == Seq::<u8>::empty());
        assert(fmt_attrs(cells, lo, i, attrs) == attrs);
        assert(fmt_bytes(cells, lo, i + 1, attrs) =~= fmt_bytes(cells, lo, i, attrs) + fmt_step(
            cells[i],
            fmt_attrs(cells, lo, i, attrs),
        ));
    } else {
        lemma_fmt_snoc(cells, lo + 1, i, cells[lo].attrs);
        assert(fmt_bytes(cells, lo, i, attrs) == fmt_step(cells[lo], attrs) + fmt_bytes(
            cells,
            lo + 1,
            i,
            cells[lo].attrs,
        ));
        assert(fmt_attrs(cells, lo, i, attrs) == fmt_attrs(cells, lo + 1, i, cells[lo].attrs));
        vstd::seq_lib::lemma_concat_associative(
            fmt_step(cells[lo], attrs),
            fmt_bytes(cells, lo + 1, i, cells[lo].attrs),
            fmt_step(cells[i], fmt_attrs(cells, lo + 1, i, cells[lo].attrs)),
        );
    }
}

/// `n` blank cells over background `bg`.
pub open spec fn blank_cells(n: nat, bg: Color) -> Seq<Cell> {
    Seq::new(n, |i: int| Cell::spec_blank(bg))
}

/// `cells` with `n` default-blank cells inserted at column `col`.
pub open spec fn insert_blanks(cells: Seq<Cell>, col: int, n: nat) -> Seq<Cell> {
    cells.subrange(0, col) + blank_cells(n, Color::Default) + cells.subrange(
        col,
        cells.len() as int,
    )
}

/// `cells` truncated or padded with default blanks to exactly `width`.
pub open spec fn pad_to(cells: Seq<Cell>, width: int) -> Seq<Cell> {
    if width <= cells.len() {
        cells.take(width)
    } else {
        cells + blank_cells((width - cells.len()) as nat, Color::Default)
    }
}

/// The characters of `cells[lo..hi]`, as bytes.
pub open spec fn text_bytes(cells: Seq<Cell>, lo: int, hi: int) -> Seq<u8> {
    cells.subrange(lo, hi).map_values(|c: Cell| c.ch)
}

/// Whether two rows hold the same cells at every column of `[lo, hi)`.
pub open spec fn cells_equal_in(a: Seq<Cell>, b: Seq<Cell>, lo: int, hi: int) -> bool {
    forall|i: int| lo <= i < hi ==> a[i] == b[i]
}

/// The escape sequence erasing the whole current line.
pub open spec fn erase_line() -> Seq<u8> {
    seq![0x1bu8, 0x5bu8, 0x32u8, 0x4bu8]
}

/// The diff bytes for a row against `prev` over the clipped range: empty
/// when the cells agree there; otherwise a reset, an erase-line, and the
/// row's formatted content written from a default attribute state.
pub open spec fn diff_bytes(cells: Seq<Cell>, prev: Seq<Cell>, start: u16, width: u16) -> Seq<
    u8,
> {
    let (lo, hi) = clip_range(cells, start, width);
    if cells_equal_in(cells, prev, lo, hi) {
        seq![]
    } else {
        sgr(Attrs::spec_default()) + erase_line() + fmt_bytes(
            cells,
            lo,
            fmt_end(cells, lo, hi),
            Attrs::spec_default(),
        )
    }
}

/// Relies on String::from_utf8: ASCII bytes decode to the string whose
/// chars have the same code points, one per byte.
#[verifier::external_body]
pub(crate) fn ascii_to_string(bytes: Vec<u8>) -> (r: String)
    requires
        forall|i: int| 0 <= i < bytes@.len() ==> bytes@[i] < 0x80,
    ensures
        r@ == bytes@.map_values(|b: u8| b as char),
{
    String::from_utf8(bytes).unwrap_or_default()
}

impl Row {
    /// A new blank row of `cols` cells.
    pub fn new(cols: u16) -> (r: Row)
        ensures
            r@ == RowView::blank(cols as nat, Color::Default),
            r@.wf(),
    {
        let mut cells: Vec<Cell> = Vec::new();
        let mut i: u16 = 0;
        while i < cols
            invariant
                i <= cols,
                cells@.len() == i as nat,
                forall|j: int| 0 <= j < i as int ==> cells@[j] == Cell::spec_blank(Color::Default),
            decreases cols - i,
        {
            cells.push(Cell::blank(Color::Default));
            i = i + 1;
        }
        let r = Row { cells, wrapped: false };
        proof {
            assert(r@ =~= RowView::blank(cols as nat, Color::Default));
        }
        r
    }

    /// Clears every cell to a blank over `bg` and resets the wrap flag.
    pub fn clear(&mut self, bg: Color)
        ensures
            final(self)@ == RowView::blank(old(self)@.cells.len(), bg),
            final(self)@.wf(),
    {
        let mut i: usize = 0;
        let n = self.cells.len();
        while i < n
            invariant
                i <= n,
                self.cells@.len() == n,
                self.wrapped == old(self).wrapped,
                forall|j: int| 0 <= j < i as int ==> self.cells@[j] == Cell::spec_blank(bg),
            decreases n - i,
        {
            self.cells.set(i, Cell::blank(bg));
            i = i + 1;
        }
        self.wrapped = false;
        proof {
            assert(self@ =~= RowView::blank(old(self)@.cells.len(), bg));
        }
    }

    /// Sets or clears the wrap flag.
    pub fn wrap(&mut self, wrapped: bool)
        ensures
            final(self)@.cells == old(self)@.cells,
            final(self)@.wrapped == wrapped,
    {
        self.wrapped = wrapped;
    }

    /// Whether the row's content continues onto the next row.
    pub fn wrapped(&self) -> (r: bool)
        ensures
            r == self@.wrapped,
    {
        self.wrapped
    }

    /// The cell at column `col`, when the column is in range.
    pub fn get(&self, col: u16) -> (r: Option<&Cell>)
        ensures
            (col as int) < self@.cells.len() ==> (r matches Some(c) && *c == self@.cells[col as int]),
            (col as int) >= self@.cells.len() ==> r is None,
    {
        if (col as usize) < self.cells.len() {
            Some(&self.cells[col as usize])
        } else {
            None
        }
    }

    /// Inserts `cell` at column `col`, shifting later cells right and
    /// growing the row by one.
    pub fn insert(&mut self, col: usize, cell: Cell)
        requires
            col <= old(self)@.cells.len(),
            old(self)@.cells.len() < usize::MAX,
        ensures
            final(self)@.cells == old(self)@.cells.insert(col as int, cell),
            final(self)@.wrapped == old(self)@.wrapped,
    {
        self.cells.insert(col, cell);
    }

    /// Removes and returns the cell at column `col`, shifting later cells
    /// left.
    pub fn remove(&mut self, col: usize) -> (r: Cell)
        requires
            col < old(self)@.cells.len(),
        ensures
            r == old(self)@.cells[col as int],
            final(self)@.cells == old(self)@.cells.remove(col as int),
            final(self)@.wrapped == old(self)@.wrapped,
    {
        self.cells.remove(col)
    }

    /// Shortens the row to at most `len` cells.
    pub fn truncate(&mut self, len: usize)
        ensures
            len <= old(self)@.cells.len() ==> final(self)@.cells == old(self)@.cells.subrange(
                0,
                len as int,
            ),
            len > old(self)@.cells.len() ==> final(self)@.cells == old(self)@.cells,
            final(self)@.wrapped == old(self)@.wrapped,
    {
        self.cells.truncate(len);
    }

    /// Grows or shrinks the row to exactly `len` cells, padding with `fill`.
    pub fn resize(&mut self, len: usize, fill: Cell)
        ensures
            final(self)@.cells.len() == len,
            forall|i: int|
                0 <= i < len ==> final(self)@.cells[i] == (if i < old(self)@.cells.len() {
                    old(self)@.cells[i]
                } else {
                    fill
                }),
            final(self)@.wrapped == old(self)@.wrapped,
    {
        if len <= self.cells.len() {
            self.cells.truncate(len);
        } else {
            while self.cells.len() < len
                invariant
                    old(self)@.cells.len() <= self.cells@.len() <= len,
                    self.wrapped == old(self).wrapped,
                    forall|i: int|
                        0 <= i < self.cells@.len() ==> self.cells@[i] == (if i < old(
                            self,
                        )@.cells.len() {
                            old(self)@.cells[i]
                        } else {
                            fill
                        }),
                decreases len - self.cells@.len(),
            {
                self.cells.push(fill);
            }
        }
    }

    /// Clears every cell from column `col` to the end of the row.
    pub fn clear_from(&mut self, col: u16, bg: Color)
        ensures
            final(self)@.cells.len() == old(self)@.cells.len(),
            forall|j: int|
                0 <= j < old(self)@.cells.len() ==> final(self)@.cells[j] == (if j < col as int {
                    old(self)@.cells[j]
                } else {
                    Cell::spec_blank(bg)
                }),
            final(self)@.wrapped == old(self)@.wrapped,
    {
        let len = self.cells.len();
        let mut j: usize = if (col as usize) < len {
            col as usize
        } else {
            len
        };
        while j < len
            invariant
                col as int <= j as int || j as int >= len as int,
                j <= len,
                len == self.cells@.len(),
                self.wrapped == old(self).wrapped,
                forall|k: int|
                    0 <= k < len as int ==> self.cells@[k] == (if k < col as int || k >= j as int {
                        old(self)@.cells[k]
                    } else {
                        Cell::spec_blank(bg)
                    }),
            decreases len - j,
        {
            self.cells.set(j, Cell::blank(bg));
            j = j + 1;
        }
    }

    /// Clears every cell from the start of the row through column `col`.
    pub fn clear_to(&mut self, col: u16, bg: Color)
        ensures
            final(self)@.cells.len() == old(self)@.cells.len(),
            forall|j: int|
                0 <= j < old(self)@.cells.len() ==> final(self)@.cells[j] == (if j <= col as int {
                    Cell::spec_blank(bg)
                } else {
                    old(self)@.cells[j]
                }),
            final(self)@.wrapped == old(self)@.wrapped,
    {
        let len = self.cells.len();
        let stop: usize = if (col as usize) < len {
            col as usize + 1
        } else {
            len
        };
        let mut j: usize = 0;
        while j < stop
            invariant
                j <= stop <= len,
                stop as int <= col as int + 1,
                len == self.cells@.len(),
                self.wrapped == old(self).wrapped,
                forall|k: int|
                    0 <= k < len as int ==> self.cells@[k] == (if k < j as int {
                        Cell::spec_blank(bg)
                    } else {
                        old(self)@.cells[k]
                    }),
            decreases stop - j,
        {
            self.cells.set(j, Cell::blank(bg));
            j = j + 1;
        }
    }

    /// Clears `count` cells in place starting at column `col`.
    pub fn clear_range(&mut self, col: u16, count: u16, bg: Color)
        ensures
            final(self)@.cells.len() == old(self)@.cells.len(),
            forall|j: int|
                0 <= j < old(self)@.cells.len() ==> final(self)@.cells[j] == (if col as int <= j
                    < col as int + count as int {
                    Cell::spec_blank(bg)
                } else {
                    old(self)@.cells[j]
                }),
            final(self)@.wrapped == old(self)@.wrapped,
    {
        let len = self.cells.len();
        let lo: usize = if (col as usize) < len {
            col as usize
        } else {
            len
        };
        let hi: usize = if (col as usize) + (count as usize) < len {
            (col as usize) + (count as usize)
        } else {
            len
        };
        let mut j: usize = lo;
        while j < hi
            invariant
                lo <= j <= hi <= len,
                col as int <= lo as int || lo as int >= len as int,
                hi as int <= col as int + count as int,
                len == self.cells@.len(),
                self.wrapped == old(self).wrapped,
                forall|k: int|
                    0 <= k < len as int ==> self.cells@[k] == (if lo as int <= k < j as int {
                        Cell::spec_blank(bg)
                    } else {
                        old(self)@.cells[k]
                    }),
            decreases hi - j,
        {
            self.cells.set(j, Cell::blank(bg));
            j = j + 1;
        }
    }

    /// Inserts `count` blank cells at column `col`, shifting existing cells
    /// right, then truncates the row back to `width` cells: cells pushed
    /// past `width` are lost.
    pub fn insert_cells(&mut self, col: u16, count: u16, width: u16)
        requires
            col as int <= old(self)@.cells.len(),
            old(self)@.cells.len() <= u16::MAX,
        ensures
            ({
                let full = insert_blanks(old(self)@.cells, col as int, count as nat);
                final(self)@.cells == (if width as int <= full.len() {
                    full.take(width as int)
                } else {
                    full
                })
            }),
            final(self)@.wrapped == old(self)@.wrapped,
    {
        let mut i: u16 = 0;
        while i < count
            invariant
                i <= count,
                col as int <= old(self)@.cells.len(),
                old(self)@.cells.len() <= u16::MAX,
                self.wrapped == old(self).wrapped,
                self.cells@.len() == old(self)@.cells.len() + i as int,
                self.cells@ == insert_blanks(old(self)@.cells, col as int, i as nat),
            decreases count - i,
        {
            self.cells.insert(col as usize, Cell::blank(Color::Default));
            proof {
                assert(self.cells@ =~= insert_blanks(old(self)@.cells, col as int, (i + 1) as nat));
            }
            i = i + 1;
        }
        self.cells.truncate(width as usize);
        proof {
            let full = insert_blanks(old(self)@.cells, col as int, count as nat);
            if width as int <= full.len() {
                assert(self.cells@ =~= full.take(width as int));
            }
        }
    }

    /// Removes `count` cells at column `col`, shifting later cells left,
    /// then pads the row back to `width` cells with blanks.
    pub fn delete_cells(&mut self, col: u16, count: u16, width: u16)
        requires
            col as int + count as int <= old(self)@.cells.len(),
        ensures
            ({
                let kept = old(self)@.cells.subrange(0, col as int) + old(self)@.cells.subrange(
                    col as int + count as int,
                    old(self)@.cells.len() as int,
                );
                final(self)@.cells == pad_to(kept, width as int)
            }),
            final(self)@.wrapped == old(self)@.wrapped,
    {
        let ghost orig = self@.cells;
        let mut i: u16 = 0;
        while i < count
            invariant
                i <= count,
                col as int + count as int <= orig.len(),
                self.wrapped == old(self).wrapped,
                self.cells@ == orig.subrange(0, col as int) + orig.subrange(
                    col as int + i as int,
                    orig.len() as int,
                ),
            decreases count - i,
        {
            self.cells.remove(col as usize);
            proof {
                assert(self.cells@ =~= orig.subrange(0, col as int) + orig.subrange(
                    col as int + i as int + 1,
                    orig.len() as int,
                ));
            }
            i = i + 1;
        }
        self.resize(width as usize, Cell::blank(Color::Default));
        proof {
            let kept = orig.subrange(0, col as int) + orig.subrange(
                col as int + count as int,
                orig.len() as int,
            );
            assert(self.cells@ =~= pad_to(kept, width as int));
        }
    }

    /// The plain text of the columns `start` and `width` select.
    pub fn contents(&self, start: u16, width: u16) -> (r: String)
        requires
            self@.wf(),
        ensures
            ({
                let (lo, hi) = clip_range(self@.cells, start, width);
                r@ == text_bytes(self@.cells, lo, hi).map_values(|b: u8| b as char)
            }),
    {
        let bytes = self.contents_bytes(start, width);
        ascii_to_string(bytes)
    }

    /// The characters of the columns `start` and `width` select, as bytes.
    pub fn contents_bytes(&self, start: u16, width: u16) -> (r: Vec<u8>)
        ensures
            ({
                let (lo, hi) = clip_range(self@.cells, start, width);
                r@ == text_bytes(self@.cells, lo, hi)
            }),
    {
        let len = self.cells.len();
        let lo: usize = if (start as usize) <= len {
            start as usize
        } else {
            len
        };
        let hi: usize = if (start as usize) + (width as usize) <= len {
            (start as usize) + (width as usize)
        } else {
            len
        };
        let mut out: Vec<u8> = Vec::new();
        let mut i: usize = lo;
        while i < hi
            invariant
                lo <= i <= hi <= self.cells@.len(),
                out@.len() == i - lo,
                forall|j: int| 0 <= j < out@.len() ==> out@[j] == self.cells@[lo + j].ch,
            decreases hi - i,
        {
            out.push(self.cells[i].ch);
            i = i + 1;
        }
        proof {
            let (slo, shi) = clip_range(self@.cells, start, width);
            assert(slo == lo as int && shi == hi as int);
            assert(out@ =~= text_bytes(self@.cells, slo, shi));
        }
        out
    }

    /// The attribute-aware formatted bytes of the columns `start` and
    /// `width` select, entered with attribute state `attrs`: the bytes, the
    /// outgoing attribute state, and the count of cells written.
    pub fn contents_formatted(&self, start: u16, width: u16, attrs: Attrs) -> (r: (
        Vec<u8>,
        Attrs,
        u16,
    ))
        ensures
            ({
                let (lo, hi) = clip_range(self@.cells, start, width);
                let end = fmt_end(self@.cells, lo, hi);
                &&& r.0@ == fmt_bytes(self@.cells, lo, end, attrs)
                &&& r.1 == fmt_attrs(self@.cells, lo, end, attrs)
                &&& r.2 as int == end - lo
            }),
    {
        let len = self.cells.len();
        let lo: usize = if (start as usize) <= len {
            start as usize
        } else {
            len
        };
        let hi: usize = if (start as usize) + (width as usize) <= len {
            (start as usize) + (width as usize)
        } else {
            len
        };
        proof {
            let (slo, shi) = clip_range(self@.cells, start, width);
            assert(slo == lo as int && shi == hi as int);
        }
        let mut end: usize = hi;
        let blank = Cell::blank(Color::Default);
        loop
            invariant
                lo <= end <= hi <= self.cells@.len(),
                blank == Cell::spec_blank(Color::Default),
                fmt_end(self.cells@, lo as int, end as int) == fmt_end(
                    self.cells@,
                    lo as int,
                    hi as int,
                ),
            ensures
                end as int == fmt_end(self@.cells, lo as int, hi as int),
            decreases end,
        {
            if end > lo {
                let c = self.cells[end - 1];
                if c == blank {
                    end = end - 1;
                } else {
                    proof {
                        assert(fmt_end(self.cells@, lo as int, end as int) == end as int);
                    }
                    break;
                }
            } else {
                break;
            }
        }
        let mut out: Vec<u8> = Vec::new();
        let mut cur: Attrs = attrs;
        let mut i: usize = lo;
        while i < end
            invariant
                lo <= i <= end <= self.cells@.len(),
                out@ == fmt_bytes(self.cells@, lo as int, i as int, attrs),
                cur == fmt_attrs(self.cells@, lo as int, i as int, attrs),
            decreases end - i,
        {
            let cell = self.cells[i];
            proof {
                lemma_fmt_snoc(self.cells@, lo as int, i as int, attrs);
            }
            if !(cell.attrs == cur) {
                crate::attrs::push_sgr(&mut out, cell.attrs);
                out.push(cell.ch);
                proof {
                    vstd::seq_lib::lemma_concat_associative(
                        fmt_bytes(self.cells@, lo as int, i as int, attrs),
                        sgr(cell.attrs),
                        seq![cell.ch],
                    );
                    assert(out@ =~= fmt_bytes(self.cells@, lo as int, i as int, attrs) + fmt_step(
                        cell,
                        cur,
                    ));
                }
            } else {
                assert(cell.attrs == cur);
                out.push(cell.ch);
                proof {
                    assert(out@ =~= fmt_bytes(self.cells@, lo as int, i as int, attrs) + fmt_step(
                        cell,
                        cur,
                    ));
                }
            }
            cur = cell.attrs;
            i = i + 1;
        }
        let written: u16 = (end - lo) as u16;
        (out, cur, written)
    }

    /// The diff of this row against `prev` over the columns `start` and
    /// `width` select, entered with attribute state `attrs`: empty when the
    /// rows agree there, else bytes that rewrite the whole line. Returns the
    /// bytes, the outgoing attribute state, and the count of cells written.
    pub fn contents_diff(&self, prev: &Row, start: u16, width: u16, attrs: Attrs) -> (r: (
        Vec<u8>,
        Attrs,
        u16,
    ))
        requires
            prev@.cells.len() == self@.cells.len(),
        ensures
            ({
                let (lo, hi) = clip_range(self@.cells, start, width);
                let end = fmt_end(self@.cells, lo, hi);
                let equal = cells_equal_in(self@.cells, prev@.cells, lo, hi);
                &&& r.0@ == diff_bytes(self@.cells, prev@.cells, start, width)
                &&& r.1 == (if equal {
                    attrs
                } else {
                    fmt_attrs(self@.cells, lo, end, Attrs::spec_default())
                })
                &&& r.2 as int == (if equal {
                    0int
                } else {
                    end - lo
                })
                &&& (r.0@.len() == 0 <==> equal)
            }),
    {
        let len = self.cells.len();
        let lo: usize = if (start as usize) <= len {
            start as usize
        } else {
            len
        };
        let hi: usize = if (start as usize) + (width as usize) <= len {
            (start as usize) + (width as usize)
        } else {
            len
        };
        proof {
            let (slo, shi) = clip_range(self@.cells, start, width);
            assert(slo == lo as int && shi == hi as int);
        }
        let mut equal = true;
        let mut i: usize = lo;
        while i < hi
            invariant
                lo <= i <= hi <= self.cells@.len(),
                hi <= prev.cells@.len(),
                equal == cells_equal_in(self.cells@, prev.cells@, lo as int, i as int),
            decreases hi - i,
        {
            let a = self.cells[i];
            let b = prev.cells[i];
            if !(a == b) {
                proof {
                    assert(self.cells@[i as int] != prev.cells@[i as int]);
                    assert(!cells_equal_in(self.cells@, prev.cells@, lo as int, hi as int));
                }
                equal = false;
                i = hi;
            } else {
                proof {
                    assert(self.cells@[i as int] == prev.cells@[i as int]);
                }
                i = i + 1;
            }
        }
        if equal {
            let out: Vec<u8> = Vec::new();
            proof {
                assert(out@ =~= diff_bytes(self@.cells, prev@.cells, start, width));
            }
            return (out, attrs, 0);
        }
        let mut out: Vec<u8> = Vec::new();
        crate::attrs::push_sgr(&mut out, Attrs::new());
        out.push(0x1b);
        out.push(0x5bu8);
        out.push(0x32u8);
        out.push(0x4bu8);
        proof {
            assert(out@ =~= sgr(Attrs::spec_default()) + erase_line());
        }
        let (mut body, fin_attrs, written) = self.contents_formatted(start, width, Attrs::new());
        let ghost head: Seq<u8> = out@;
        out.append(&mut body);
        proof {
            let (slo, shi) = clip_range(self@.cells, start, width);
            let end = fmt_end(self@.cells, slo, shi);
            vstd::seq_lib::lemma_concat_associative(
                sgr(Attrs::spec_default()),
                erase_line(),
                fmt_bytes(self@.cells, slo, end, Attrs::spec_default()),
            );
            assert(out@ == diff_bytes(self@.cells, prev@.cells, start, width));
            assert(out@.len() > 0);
        }
        (out, fin_attrs, written)
    }
}

} // verus!
