//! The terminal grid: a cursor state machine over an ordered sequence of
//! rows, with a scroll region, origin mode, editing and scrolling
//! operations, and serialization back into escape-sequence byte streams.

use vstd::prelude::*;

use crate::attrs::{Attrs, Color};
use crate::cell::Cell;
use crate::row::{views, Row, RowView};

verus! {

/// Grid dimensions, in character cells.
#[derive(Clone, Copy, Debug, PartialEq, Eq, Structural)]
pub struct Size {
    pub rows: u16,
    pub cols: u16,
}

impl Default for Size {
    fn default() -> (r: Self)
        ensures
            r == (Size { rows: 0, cols: 0 }),
    {
        Size { rows: 0, cols: 0 }
    }
}

/// A zero-indexed cursor or cell coordinate.
#[derive(Clone, Copy, Debug, PartialEq, Eq, Structural)]
pub struct Pos {
    pub row: u16,
    pub col: u16,
}

impl Default for Pos {
    fn default() -> (r: Self)
        ensures
            r == (Pos { row: 0, col: 0 }),
    {
        Pos { row: 0, col: 0 }
    }
}

/// The mathematical model of a grid.
#[verifier::ext_equal]
pub ghost struct GridView {
    pub size: Size,
    pub pos: Pos,
    pub saved_pos: Pos,
    pub rows: Seq<RowView>,
    pub scroll_top: u16,
    pub scroll_bottom: u16,
    pub origin_mode: bool,
    pub saved_origin_mode: bool,
}

/// Every row is `cols` cells wide and holds only well-formed cells.
pub open spec fn all_rows_ok(rows: Seq<RowView>, cols: u16) -> bool {
    forall|i: int|
        0 <= i < rows.len() ==> (#[trigger] rows[i]).cells.len() == cols && rows[i].wf()
}

impl GridView {
    /// The grid invariant: positive dimensions, one row per grid line, every
    /// row of full width with well-formed cells, the cursor row on the grid,
    /// and an ordered scroll region inside it. The cursor column is tracked
    /// exactly by each operation's contract instead (column movement is
    /// deliberately unclamped).
    pub open spec fn wf(self) -> bool {
        &&& self.size.rows >= 1
        &&& self.size.cols >= 1
        &&& self.rows.len() == self.size.rows
        &&& all_rows_ok(self.rows, self.size.cols)
        &&& self.pos.row < self.size.rows
        &&& self.scroll_top <= self.scroll_bottom < self.size.rows
    }
}

/// The smaller of two column or row numbers.
pub open spec fn min_u16(a: u16, b: u16) -> u16 {
    if a <= b {
        a
    } else {
        b
    }
}

/// One scroll-up step: a blank row is inserted at `ins` and the row at
/// `rem` is removed, shifting the rows between them up.
pub open spec fn insert_remove(rows: Seq<RowView>, ins: int, rem: int, blank: RowView) -> Seq<
    RowView,
> {
    rows.insert(ins, blank).remove(rem)
}

/// One scroll-down step: the row at `rem` is removed and a blank row is
/// inserted at `ins`, shifting the rows between them down.
pub open spec fn remove_insert(rows: Seq<RowView>, rem: int, ins: int, blank: RowView) -> Seq<
    RowView,
> {
    rows.remove(rem).insert(ins, blank)
}

/// `insert_remove` iterated `k` times.
pub open spec fn iter_insert_remove(
    rows: Seq<RowView>,
    ins: int,
    rem: int,
    blank: RowView,
    k: nat,
) -> Seq<RowView>
    decreases k,
{
    if k == 0 {
        rows
    } else {
        insert_remove(iter_insert_remove(rows, ins, rem, blank, (k - 1) as nat), ins, rem, blank)
    }
}

/// `remove_insert` iterated `k` times.
pub open spec fn iter_remove_insert(
    rows: Seq<RowView>,
    rem: int,
    ins: int,
    blank: RowView,
    k: nat,
) -> Seq<RowView>
    decreases k,
{
    if k == 0 {
        rows
    } else {
        remove_insert(iter_remove_insert(rows, rem, ins, blank, (k - 1) as nat), rem, ins, blank)
    }
}

pub proof fn lemma_insert_remove_ok(rows: Seq<RowView>, ins: int, rem: int, blank: RowView, cols: u16)
    requires
        all_rows_ok(rows, cols),
        blank.cells.len() == cols,
        blank.wf(),
        0 <= ins <= rows.len(),
        0 <= rem < rows.len() + 1,
    ensures
        insert_remove(rows, ins, rem, blank).len() == rows.len(),
        all_rows_ok(insert_remove(rows, ins, rem, blank), cols),
{
    let inserted = rows.insert(ins, blank);
    rows.insert_ensures(ins, blank);
    assert(all_rows_ok(inserted, cols)) by {
        assert forall|i: int| 0 <= i < inserted.len() implies (#[trigger] inserted[i]).cells.len()
            == cols && inserted[i].wf() by {
            if i < ins {
                assert(inserted[i] == rows[i]);
            } else if i == ins {
                assert(inserted[i] == blank);
            } else {
                assert(inserted[i] == rows[i - 1]);
            }
        }
    }
    inserted.remove_ensures(rem);
    let result = inserted.remove(rem);
    assert forall|i: int| 0 <= i < result.len() implies (#[trigger] result[i]).cells.len() == cols
        && result[i].wf() by {
        if i < rem {
            assert(result[i] == inserted[i]);
        } else {
            assert(result[i] == inserted[i + 1]);
        }
    }
}

pub proof fn lemma_remove_insert_ok(rows: Seq<RowView>, rem: int, ins: int, blank: RowView, cols: u16)
    requires
        all_rows_ok(rows, cols),
        blank.cells.len() == cols,
        blank.wf(),
        0 <= rem < rows.len(),
        0 <= ins < rows.len(),
    ensures
        remove_insert(rows, rem, ins, blank).len() == rows.len(),
        all_rows_ok(remove_insert(rows, rem, ins, blank), cols),
{
    let removed = rows.remove(rem);
    rows.remove_ensures(rem);
    assert(all_rows_ok(removed, cols)) by {
        assert forall|i: int| 0 <= i < removed.len() implies (#[trigger] removed[i]).cells.len()
            == cols && removed[i].wf() by {
            if i < rem {
                assert(removed[i] == rows[i]);
            } else {
                assert(removed[i] == rows[i + 1]);
            }
        }
    }
    removed.insert_ensures(ins, blank);
    let result = removed.insert(ins, blank);
    assert forall|i: int| 0 <= i < result.len() implies (#[trigger] result[i]).cells.len() == cols
        && result[i].wf() by {
        if i < ins {
            assert(result[i] == removed[i]);
        } else if i == ins {
            assert(result[i] == blank);
        } else {
            assert(result[i] == removed[i - 1]);
        }
    }
}

pub proof fn lemma_rows_update_ok(rows: Seq<RowView>, i: int, r: RowView, cols: u16)
    requires
        all_rows_ok(rows, cols),
        0 <= i < rows.len(),
        r.cells.len() == cols,
        r.wf(),
    ensures
        rows.update(i, r).len() == rows.len(),
        all_rows_ok(rows.update(i, r), cols),
{
    assert forall|k: int| 0 <= k < rows.update(i, r).len() implies (#[trigger] rows.update(
        i,
        r,
    )[k]).cells.len() == cols && rows.update(i, r)[k].wf() by {
        if k != i {
            assert(rows.update(i, r)[k] == rows[k]);
        }
    }
}

/// A mutable borrow of one row of a grid.
fn row_at(rows: &mut Vec<Row>, i: usize) -> (r: &mut Row)
    requires
        i < old(rows).len(),
    ensures
        *r == old(rows)@[i as int],
        final(rows)@ == old(rows)@.update(i as int, *final(r)),
{
    &mut rows[i]
}

/// The screen-state engine: a size, a cursor, a saved cursor, the rows, the
/// scroll region, and the origin-mode flags.
#[derive(Clone, Debug)]
pub struct Grid {
    pub size: Size,
    pub pos: Pos,
    pub saved_pos: Pos,
    pub rows: Vec<Row>,
    pub scroll_top: u16,
    pub scroll_bottom: u16,
    pub origin_mode: bool,
    pub saved_origin_mode: bool,
}

impl View for Grid {
    type V = GridView;

    open spec fn view(&self) -> GridView {
        GridView {
            size: self.size,
            pos: self.pos,
            saved_pos: self.saved_pos,
            rows: views(self.rows@),
            scroll_top: self.scroll_top,
            scroll_bottom: self.scroll_bottom,
            origin_mode: self.origin_mode,
            saved_origin_mode: self.saved_origin_mode,
        }
    }
}

impl Grid {
    /// A fresh grid: blank rows, cursor at the origin, a full-height scroll
    /// region, origin mode off.
    pub fn new(size: Size) -> (r: Grid)
        requires
            size.rows >= 1,
            size.cols >= 1,
        ensures
            r@.wf(),
            r@.size == size,
            r@.pos == (Pos { row: 0, col: 0 }),
            r@.saved_pos == (Pos { row: 0, col: 0 }),
            r@.rows.len() == size.rows,
            forall|i: int|
                0 <= i < size.rows as int ==> r@.rows[i] == RowView::blank(
                    size.cols as nat,
                    Color::Default,
                ),
            r@.scroll_top == 0,
            r@.scroll_bottom == (size.rows - 1) as u16,
            !r@.origin_mode,
            !r@.saved_origin_mode,
    {
        let mut rows: Vec<Row> = Vec::new();
        let mut i: u16 = 0;
        while i < size.rows
            invariant
                i <= size.rows,
                rows@.len() == i as nat,
                forall|j: int|
                    0 <= j < i as int ==> views(rows@)[j] == RowView::blank(
                        size.cols as nat,
                        Color::Default,
                    ),
            decreases size.rows - i,
        {
            let r = Row::new(size.cols);
            proof {
                crate::row::lemma_views_push(rows@, r);
            }
            rows.push(r);
            i = i + 1;
        }
        Grid {
            size,
            pos: Pos { row: 0, col: 0 },
            saved_pos: Pos { row: 0, col: 0 },
            rows,
            scroll_top: 0,
            scroll_bottom: size.rows - 1,
            origin_mode: false,
            saved_origin_mode: false,
        }
    }

    /// A blank row of the grid's current width.
    fn new_row(&self) -> (r: Row)
        ensures
            r@ == RowView::blank(self@.size.cols as nat, Color::Default),
    {
        Row::new(self.size.cols)
    }

    /// Resets the cursor, the saved cursor, the scroll region and the
    /// origin-mode flags, and clears every cell to the default background.
    pub fn clear(&mut self)
        requires
            old(self)@.wf(),
        ensures
            final(self)@.wf(),
            final(self)@.size == old(self)@.size,
            final(self)@.pos == (Pos { row: 0, col: 0 }),
            final(self)@.saved_pos == (Pos { row: 0, col: 0 }),
            final(self)@.rows.len() == old(self)@.rows.len(),
            forall|i: int|
                0 <= i < old(self)@.rows.len() ==> final(self)@.rows[i] == RowView::blank(
                    old(self)@.size.cols as nat,
                    Color::Default,
                ),
            final(self)@.scroll_top == 0,
            final(self)@.scroll_bottom == (old(self)@.size.rows - 1) as u16,
            !final(self)@.origin_mode,
            !final(self)@.saved_origin_mode,
    {
        self.pos = Pos { row: 0, col: 0 };
        self.saved_pos = Pos { row: 0, col: 0 };
        let n = self.rows.len();
        let mut i: usize = 0;
        while i < n
            invariant
                i <= n,
                n == self.rows@.len(),
                self.size == old(self).size,
                self.pos == (Pos { row: 0, col: 0 }),
                self.saved_pos == (Pos { row: 0, col: 0 }),
                old(self)@.size.rows >= 1,
                old(self)@.size.cols >= 1,
                old(self)@.rows.len() == n,
                all_rows_ok(views(self.rows@), self.size.cols),
                forall|k: int|
                    0 <= k < i as int ==> views(self.rows@)[k] == RowView::blank(
                        old(self)@.size.cols as nat,
                        Color::Default,
                    ),
            decreases n - i,
        {
            let ghost before = self.rows@;
            let r = row_at(&mut self.rows, i);
            proof {
                crate::row::lemma_views_index(before, i as int);
                assert(views(before)[i as int].cells.len() == self.size.cols);
            }
            r.clear(Color::Default);
            proof {
                crate::row::lemma_views_update(before, i as int, self.rows@[i as int]);
                crate::row::lemma_views_index(self.rows@, i as int);
                crate::row::lemma_blank_ok(old(self)@.size.cols as nat, Color::Default);
                assert(self.rows@[i as int]@ == RowView::blank(
                    old(self)@.size.cols as nat,
                    Color::Default,
                ));
                assert forall|k: int| 0 <= k < self.rows@.len() implies (#[trigger] views(
                    self.rows@,
                )[k]).cells.len() == self.size.cols && views(self.rows@)[k].wf() by {
                    if k != i as int {
                        assert(views(self.rows@)[k] == views(before)[k]);
                    }
                }
            }
            i = i + 1;
        }
        self.scroll_top = 0;
        self.scroll_bottom = self.size.rows - 1;
        self.origin_mode = false;
        self.saved_origin_mode = false;
    }

    /// Resizes the grid. A changed width first clears every wrap flag (a
    /// wrap flag is only meaningful relative to a specific width); the row
    /// count and every row's width are then grown or shrunk, preserving the
    /// cell content that remains; the scroll bottom is re-clamped, with a
    /// collapsed region resetting to full height; and the cursor is
    /// re-clamped against the whole grid.
    pub fn set_size(&mut self, size: Size)
        requires
            old(self)@.wf(),
            size.rows >= 1,
            size.cols >= 1,
        ensures
            final(self)@.wf(),
            final(self)@.size == size,
            final(self)@.saved_pos == old(self)@.saved_pos,
            final(self)@.origin_mode == old(self)@.origin_mode,
            final(self)@.saved_origin_mode == old(self)@.saved_origin_mode,
            final(self)@.scroll_bottom == min_u16(
                old(self)@.scroll_bottom,
                (size.rows - 1) as u16,
            ),
            final(self)@.scroll_top == (if min_u16(old(self)@.scroll_bottom, (size.rows - 1) as u16)
                < old(self)@.scroll_top {
                0u16
            } else {
                old(self)@.scroll_top
            }),
            final(self)@.pos.row == min_u16(old(self)@.pos.row, (size.rows - 1) as u16),
            final(self)@.pos.col == min_u16(old(self)@.pos.col, (size.cols - 1) as u16),
            final(self)@.rows == Seq::new(
                size.rows as nat,
                |i: int|
                    RowView {
                        cells: Seq::new(
                            size.cols as nat,
                            |j: int|
                                if i < old(self)@.rows.len() && j < old(self)@.size.cols as int {
                                    old(self)@.rows[i].cells[j]
                                } else {
                                    Cell::spec_blank(Color::Default)
                                },
                        ),
                        wrapped: (i < old(self)@.rows.len() && size.cols == old(self)@.size.cols
                            && old(self)@.rows[i].wrapped),
                    },
            ),
    {
        let ghost orig = old(self)@;
        if size.cols != self.size.cols {
            let n = self.rows.len();
            let mut i: usize = 0;
            while i < n
                invariant
                    i <= n,
                    n == self.rows@.len(),
                    self.size == old(self).size,
                    self.pos == old(self).pos,
                    self.saved_pos == old(self).saved_pos,
                    self.scroll_top == old(self).scroll_top,
                    self.scroll_bottom == old(self).scroll_bottom,
                    self.origin_mode == old(self).origin_mode,
                    self.saved_origin_mode == old(self).saved_origin_mode,
                    forall|k: int|
                        0 <= k < n ==> (#[trigger] views(self.rows@)[k]).cells == orig.rows[k].cells,
                    forall|k: int| 0 <= k < i as int ==> !(#[trigger] views(self.rows@)[k]).wrapped,
                    forall|k: int|
                        i as int <= k < n ==> (#[trigger] views(self.rows@)[k]).wrapped
                            == orig.rows[k].wrapped,
                decreases n - i,
            {
                let ghost before = self.rows@;
                let r = row_at(&mut self.rows, i);
                proof {
                    crate::row::lemma_views_index(before, i as int);
                }
                r.wrap(false);
                proof {
                    crate::row::lemma_views_update(before, i as int, self.rows@[i as int]);
                    crate::row::lemma_views_index(self.rows@, i as int);
                    assert forall|k: int| 0 <= k < n implies (#[trigger] views(
                        self.rows@,
                    )[k]).cells == orig.rows[k].cells by {
                        if k != i as int {
                            assert(views(self.rows@)[k] == views(before)[k]);
                        }
                    }
                }
                i = i + 1;
            }
        }
        self.size = size;
        proof {
            assert(forall|k: int|
                0 <= k < self.rows@.len() ==> (#[trigger] views(self.rows@)[k]).cells
                    == orig.rows[k].cells && views(self.rows@)[k].wrapped == (size.cols == orig.size.cols && orig.rows[k].wrapped));
        }
        if (size.rows as usize) <= self.rows.len() {
            let ghost before = self.rows@;
            self.rows.truncate(size.rows as usize);
            proof {
                crate::row::lemma_views_subrange(before, 0, size.rows as int);
                assert(views(self.rows@) == views(before).subrange(0, size.rows as int));
            }
        } else {
            while self.rows.len() < size.rows as usize
                invariant
                    orig.rows.len() <= self.rows@.len() <= size.rows as int,
                    self.size == size,
                    self.pos == old(self).pos,
                    self.saved_pos == old(self).saved_pos,
                    self.scroll_top == old(self).scroll_top,
                    self.scroll_bottom == old(self).scroll_bottom,
                    self.origin_mode == old(self).origin_mode,
                    self.saved_origin_mode == old(self).saved_origin_mode,
                    forall|k: int|
                        0 <= k < orig.rows.len() ==> (#[trigger] views(self.rows@)[k]).cells
                            == orig.rows[k].cells && views(self.rows@)[k].wrapped == (size.cols == orig.size.cols && orig.rows[k].wrapped),
                    forall|k: int|
                        orig.rows.len() <= k < self.rows@.len() ==> (#[trigger] views(
                            self.rows@,
                        )[k]) == RowView::blank(size.cols as nat, Color::Default),
                decreases size.rows as int - self.rows@.len(),
            {
                let nr = self.new_row();
                proof {
                    crate::row::lemma_views_push(self.rows@, nr);
                }
                self.rows.push(nr);
            }
        }
        let n = self.rows.len();
        let mut i: usize = 0;
        while i < n
            invariant
                i <= n,
                n == self.rows@.len(),
                n == size.rows as int,
                self.size == size,
                self.pos == old(self).pos,
                self.saved_pos == old(self).saved_pos,
                self.scroll_top == old(self).scroll_top,
                self.scroll_bottom == old(self).scroll_bottom,
                self.origin_mode == old(self).origin_mode,
                self.saved_origin_mode == old(self).saved_origin_mode,
                orig.wf(),
                forall|k: int|
                    i as int <= k < n && k < orig.rows.len() ==> (#[trigger] views(
                        self.rows@,
                    )[k]).cells == orig.rows[k].cells && views(self.rows@)[k].wrapped == (size.cols == orig.size.cols && orig.rows[k].wrapped),
                forall|k: int|
                    i as int <= k < n && k >= orig.rows.len() ==> (#[trigger] views(self.rows@)[k])
                        == RowView::blank(size.cols as nat, Color::Default),
                forall|k: int|
                    0 <= k < i as int ==> (#[trigger] views(self.rows@)[k]) == (RowView {
                        cells: Seq::new(
                            size.cols as nat,
                            |j: int|
                                if k < orig.rows.len() && j < orig.size.cols as int {
                                    orig.rows[k].cells[j]
                                } else {
                                    Cell::spec_blank(Color::Default)
                                },
                        ),
                        wrapped: (k < orig.rows.len() && size.cols == orig.size.cols
                            && orig.rows[k].wrapped),
                    }),
            decreases n - i,
        {
            let ghost before = self.rows@;
            let r = row_at(&mut self.rows, i);
            proof {
                crate::row::lemma_views_index(before, i as int);
            }
            r.resize(size.cols as usize, Cell::blank(Color::Default));
            proof {
                crate::row::lemma_views_update(before, i as int, self.rows@[i as int]);
                crate::row::lemma_views_index(self.rows@, i as int);
                crate::row::lemma_blank_ok(size.cols as nat, Color::Default);
                if (i as int) < orig.rows.len() {
                    assert(orig.rows[i as int].cells.len() == orig.size.cols);
                    assert(views(before)[i as int].cells == orig.rows[i as int].cells);
                    assert(views(before)[i as int].wrapped == (size.cols == orig.size.cols && orig.rows[i as int].wrapped));
                } else {
                    assert(views(before)[i as int] == RowView::blank(
                        size.cols as nat,
                        Color::Default,
                    ));
                }
                assert(self.rows@[i as int]@.cells.len() == size.cols as int);
                assert(self.rows@[i as int]@.wrapped == ((i as int) < orig.rows.len() && size.cols
                    == orig.size.cols && orig.rows[i as int].wrapped));
                assert forall|j: int| 0 <= j < size.cols as int implies self.rows@[i as int]@.cells[j]
                    == (if (i as int) < orig.rows.len() && j < orig.size.cols as int {
                    orig.rows[i as int].cells[j]
                } else {
                    Cell::spec_blank(Color::Default)
                }) by {
                    assert(self.rows@[i as int]@.cells[j] == (if j < views(
                        before,
                    )[i as int].cells.len() {
                        views(before)[i as int].cells[j]
                    } else {
                        Cell::spec_blank(Color::Default)
                    }));
                }
                assert(self.rows@[i as int]@ =~= (RowView {
                    cells: Seq::new(
                        size.cols as nat,
                        |j: int|
                            if (i as int) < orig.rows.len() && j < orig.size.cols as int {
                                orig.rows[i as int].cells[j]
                            } else {
                                Cell::spec_blank(Color::Default)
                            },
                    ),
                    wrapped: ((i as int) < orig.rows.len() && size.cols == orig.size.cols
                        && orig.rows[i as int].wrapped),
                }));
                assert forall|k: int| 0 <= k < n implies views(self.rows@)[k] == (if k != i as int {
                    views(before)[k]
                } else {
                    views(self.rows@)[i as int]
                }) by {}
            }
            i = i + 1;
        }
        if self.scroll_bottom >= size.rows {
            self.scroll_bottom = size.rows - 1;
        }
        if self.scroll_bottom < self.scroll_top {
            self.scroll_top = 0;
        }
        self.row_clamp_top(false);
        self.row_clamp_bottom(false);
        self.col_clamp();
        proof {
            assert(self@.rows =~= Seq::new(
                size.rows as nat,
                |i: int|
                    RowView {
                        cells: Seq::new(
                            size.cols as nat,
                            |j: int|
                                if i < orig.rows.len() && j < orig.size.cols as int {
                                    orig.rows[i].cells[j]
                                } else {
                                    Cell::spec_blank(Color::Default)
                                },
                        ),
                        wrapped: (i < orig.rows.len() && size.cols == orig.size.cols
                            && orig.rows[i].wrapped),
                    },
            ));
            assert(all_rows_ok(self@.rows, size.cols)) by {
                assert forall|k: int| 0 <= k < self@.rows.len() implies (#[trigger] self@.rows[k]).cells.len()
                    == size.cols && self@.rows[k].wf() by {
                    assert forall|j: int| 0 <= j < self@.rows[k].cells.len() implies (
                    #[trigger] self@.rows[k].cells[j]).wf() by {
                        if k < orig.rows.len() && j < orig.size.cols as int {
                            assert(orig.rows[k].wf());
                            assert(orig.rows[k].cells[j].wf());
                        }
                    }
                }
            }
        }
    }

    /// The grid's dimensions.
    pub fn size(&self) -> (r: Size)
        ensures
            r == self@.size,
    {
        self.size
    }

    /// The cursor position.
    pub fn pos(&self) -> (r: Pos)
        ensures
            r == self@.pos,
    {
        self.pos
    }

    /// Moves the cursor to `pos`: under origin mode the requested row is
    /// offset by the scroll top and clamped to the scroll region, otherwise
    /// it is clamped to the grid; the column is clamped to the grid width.
    pub fn set_pos(&mut self, pos: Pos)
        requires
            old(self)@.wf(),
        ensures
            final(self)@.wf(),
            final(self)@ == (GridView {
                pos: Pos {
                    row: if old(self)@.origin_mode {
                        min_u16(
                            pos.row.saturating_add(old(self)@.scroll_top),
                            old(self)@.scroll_bottom,
                        )
                    } else {
                        min_u16(pos.row, (old(self)@.size.rows - 1) as u16)
                    },
                    col: min_u16(pos.col, (old(self)@.size.cols - 1) as u16),
                },
                ..old(self)@
            }),
    {
        let mut pos = pos;
        if self.origin_mode {
            pos.row = pos.row.saturating_add(self.scroll_top);
        }
        self.pos = pos;
        let limit = self.origin_mode;
        self.row_clamp_top(limit);
        self.row_clamp_bottom(limit);
        self.col_clamp();
        proof {
            assert(final(self)@ =~= (GridView {
                pos: final(self)@.pos,
                ..old(self)@
            }));
        }
    }

    /// Copies the cursor position and origin-mode flag into the single
    /// saved slot, discarding what was there.
    pub fn save_cursor(&mut self)
        ensures
            final(self)@ == (GridView {
                saved_pos: old(self)@.pos,
                saved_origin_mode: old(self)@.origin_mode,
                ..old(self)@
            }),
    {
        self.saved_pos = self.pos;
        self.saved_origin_mode = self.origin_mode;
    }

    /// Restores the cursor position and origin-mode flag from the saved
    /// slot. The saved position must still lie on the grid: a save followed
    /// by a shrinking resize leaves a stale slot that must not be restored.
    pub fn restore_cursor(&mut self)
        requires
            old(self)@.wf(),
            old(self)@.saved_pos.row < old(self)@.size.rows,
        ensures
            final(self)@.wf(),
            final(self)@ == (GridView {
                pos: old(self)@.saved_pos,
                origin_mode: old(self)@.saved_origin_mode,
                ..old(self)@
            }),
    {
        self.pos = self.saved_pos;
        self.origin_mode = self.saved_origin_mode;
    }

    /// The grid's rows, in order.
    pub fn rows(&self) -> (r: &Vec<Row>)
        ensures
            views(r@) == self@.rows,
    {
        &self.rows
    }

    /// Exclusive access to the grid's rows. The caller is responsible for
    /// leaving every row at the grid's width.
    pub fn rows_mut(&mut self) -> (r: &mut Vec<Row>)
        ensures
            *r == old(self).rows,
            final(self).size == old(self).size,
            final(self).pos == old(self).pos,
            final(self).saved_pos == old(self).saved_pos,
            final(self).rows == *final(r),
            final(self).scroll_top == old(self).scroll_top,
            final(self).scroll_bottom == old(self).scroll_bottom,
            final(self).origin_mode == old(self).origin_mode,
            final(self).saved_origin_mode == old(self).saved_origin_mode,
    {
        &mut self.rows
    }

    /// The row at `pos.row`, when that row exists.
    pub fn row(&self, pos: Pos) -> (r: Option<&Row>)
        ensures
            (pos.row as int) < self@.rows.len() ==> (r matches Some(x) && x@ == self@.rows[pos.row as int]),
            (pos.row as int) >= self@.rows.len() ==> r is None,
    {
        if (pos.row as usize) < self.rows.len() {
            Some(&self.rows[pos.row as usize])
        } else {
            None
        }
    }

    /// The cell at `pos`, when it exists.
    pub fn cell(&self, pos: Pos) -> (r: Option<&Cell>)
        ensures
            ((pos.row as int) < self@.rows.len() && (pos.col as int)
                < self@.rows[pos.row as int].cells.len()) ==> (r matches Some(c) && *c
                == self@.rows[pos.row as int].cells[pos.col as int]),
            ((pos.row as int) >= self@.rows.len() || (pos.col as int)
                >= self@.rows[pos.row as int].cells.len()) ==> r is None,
    {
        if (pos.row as usize) < self.rows.len() {
            self.rows[pos.row as usize].get(pos.col)
        } else {
            None
        }
    }

    /// Exclusive access to the row at `pos.row`, when that row exists.
    pub fn row_mut(&mut self, pos: Pos) -> (r: Option<&mut Row>)
        ensures
            (pos.row as int) < old(self)@.rows.len() ==> (r matches Some(x) && *x == old(
                self,
            ).rows@[pos.row as int] && final(self).rows@ == old(self).rows@.update(
                pos.row as int,
                *final(x),
            )),
            (pos.row as int) >= old(self)@.rows.len() ==> r is None && final(self).rows@ == old(
                self,
            ).rows@,
            final(self).size == old(self).size,
            final(self).pos == old(self).pos,
            final(self).saved_pos == old(self).saved_pos,
            final(self).scroll_top == old(self).scroll_top,
            final(self).scroll_bottom == old(self).scroll_bottom,
            final(self).origin_mode == old(self).origin_mode,
            final(self).saved_origin_mode == old(self).saved_origin_mode,
    {
        if (pos.row as usize) < self.rows.len() {
            Some(row_at(&mut self.rows, pos.row as usize))
        } else {
            None
        }
    }

    /// Exclusive access to the row the cursor is on.
    pub fn current_row_mut(&mut self) -> (r: &mut Row)
        requires
            old(self)@.wf(),
        ensures
            *r == old(self).rows@[old(self)@.pos.row as int],
            final(self).rows@ == old(self).rows@.update(old(self)@.pos.row as int, *final(r)),
            final(self).size == old(self).size,
            final(self).pos == old(self).pos,
            final(self).saved_pos == old(self).saved_pos,
            final(self).scroll_top == old(self).scroll_top,
            final(self).scroll_bottom == old(self).scroll_bottom,
            final(self).origin_mode == old(self).origin_mode,
            final(self).saved_origin_mode == old(self).saved_origin_mode,
    {
        let pos = self.pos;
        row_at(&mut self.rows, pos.row as usize)
    }

    /// Moves the cursor row down by `count`, clamped to the scroll bottom,
    /// without scrolling.
    pub fn row_inc_clamp(&mut self, count: u16)
        requires
            old(self)@.wf(),
        ensures
            final(self)@.wf(),
            final(self)@ == (GridView {
                pos: Pos {
                    row: min_u16(
                        old(self)@.pos.row.saturating_add(count),
                        old(self)@.scroll_bottom,
                    ),
                    col: old(self)@.pos.col,
                },
                ..old(self)@
            }),
    {
        self.pos.row = self.pos.row.saturating_add(count);
        self.row_clamp_bottom(true);
        proof {
            assert(final(self)@ =~= (GridView { pos: final(self)@.pos, ..old(self)@ }));
        }
    }

    /// Moves the cursor row up by `count`, clamped to the scroll top,
    /// without scrolling.
    pub fn row_dec_clamp(&mut self, count: u16)
        requires
            old(self)@.wf(),
        ensures
            final(self)@.wf(),
            final(self)@ == (GridView {
                pos: Pos {
                    row: ({
                        let r1 = old(self)@.pos.row.saturating_sub(count);
                        if r1 < old(self)@.scroll_top {
                            old(self)@.scroll_top
                        } else {
                            r1
                        }
                    }),
                    col: old(self)@.pos.col,
                },
                ..old(self)@
            }),
    {
        self.pos.row = self.pos.row.saturating_sub(count);
        self.row_clamp_top(true);
        proof {
            assert(final(self)@ =~= (GridView { pos: final(self)@.pos, ..old(self)@ }));
        }
    }

    /// Sets the cursor row to `i`, clamped into the scroll region.
    pub fn row_set(&mut self, i: u16)
        requires
            old(self)@.wf(),
        ensures
            final(self)@.wf(),
            final(self)@ == (GridView {
                pos: Pos {
                    row: ({
                        let r1 = if i < old(self)@.scroll_top {
                            old(self)@.scroll_top
                        } else {
                            i
                        };
                        min_u16(r1, old(self)@.scroll_bottom)
                    }),
                    col: old(self)@.pos.col,
                },
                ..old(self)@
            }),
    {
        self.pos.row = i;
        self.row_clamp_top(true);
        self.row_clamp_bottom(true);
        proof {
            assert(final(self)@ =~= (GridView { pos: final(self)@.pos, ..old(self)@ }));
        }
    }

    /// Moves the cursor column right by `count`, saturating only at the
    /// numeric limit: deliberately not clamped to the grid width.
    pub fn col_inc(&mut self, count: u16)
        ensures
            final(self)@ == (GridView {
                pos: Pos {
                    row: old(self)@.pos.row,
                    col: old(self)@.pos.col.saturating_add(count),
                },
                ..old(self)@
            }),
    {
        self.pos.col = self.pos.col.saturating_add(count);
        proof {
            assert(final(self)@ =~= (GridView { pos: final(self)@.pos, ..old(self)@ }));
        }
    }

    /// Moves the cursor column right by `count`, clamped to the grid width.
    pub fn col_inc_clamp(&mut self, count: u16)
        requires
            old(self)@.wf(),
        ensures
            final(self)@.wf(),
            final(self)@ == (GridView {
                pos: Pos {
                    row: old(self)@.pos.row,
                    col: min_u16(
                        old(self)@.pos.col.saturating_add(count),
                        (old(self)@.size.cols - 1) as u16,
                    ),
                },
                ..old(self)@
            }),
    {
        self.pos.col = self.pos.col.saturating_add(count);
        self.col_clamp();
        proof {
            assert(final(self)@ =~= (GridView { pos: final(self)@.pos, ..old(self)@ }));
        }
    }

    /// Moves the cursor column left by `count`, saturating at zero.
    pub fn col_dec(&mut self, count: u16)
        ensures
            final(self)@ == (GridView {
                pos: Pos {
                    row: old(self)@.pos.row,
                    col: old(self)@.pos.col.saturating_sub(count),
                },
                ..old(self)@
            }),
    {
        self.pos.col = self.pos.col.saturating_sub(count);
        proof {
            assert(final(self)@ =~= (GridView { pos: final(self)@.pos, ..old(self)@ }));
        }
    }

    /// Advances the cursor to the next multiple-of-8 tab stop, clamped to
    /// the grid width.
    pub fn col_tab(&mut self)
        requires
            old(self)@.wf(),
        ensures
            final(self)@.wf(),
            final(self)@ == (GridView {
                pos: Pos {
                    row: old(self)@.pos.row,
                    col: ({
                        let next = old(self)@.pos.col as int - old(self)@.pos.col as int % 8 + 8;
                        if next > old(self)@.size.cols as int - 1 {
                            (old(self)@.size.cols - 1) as u16
                        } else {
                            next as u16
                        }
                    }),
                },
                ..old(self)@
            }),
    {
        let next: u32 = (self.pos.col as u32 - (self.pos.col % 8) as u32) + 8;
        let limit: u32 = (self.size.cols - 1) as u32;
        self.pos.col = if next > limit {
            self.size.cols - 1
        } else {
            next as u16
        };
        proof {
            assert(final(self)@ =~= (GridView { pos: final(self)@.pos, ..old(self)@ }));
        }
    }

    /// Sets the cursor column to `i`, clamped to the grid width.
    pub fn col_set(&mut self, i: u16)
        requires
            old(self)@.wf(),
        ensures
            final(self)@.wf(),
            final(self)@ == (GridView {
                pos: Pos {
                    row: old(self)@.pos.row,
                    col: min_u16(i, (old(self)@.size.cols - 1) as u16),
                },
                ..old(self)@
            }),
    {
        self.pos.col = i;
        self.col_clamp();
        proof {
            assert(final(self)@ =~= (GridView { pos: final(self)@.pos, ..old(self)@ }));
        }
    }

    /// Clears the rows with indices in `[lo, hi)` to blanks over `bg`.
    fn clear_rows(&mut self, lo: u16, hi: u16, bg: Color)
        requires
            old(self)@.wf(),
            lo <= hi,
            hi as int <= old(self)@.rows.len(),
        ensures
            final(self)@.wf(),
            final(self)@ == (GridView {
                rows: Seq::new(
                    old(self)@.rows.len(),
                    |i: int|
                        if lo as int <= i < hi as int {
                            RowView::blank(old(self)@.size.cols as nat, bg)
                        } else {
                            old(self)@.rows[i]
                        },
                ),
                ..old(self)@
            }),
    {
        proof {
            crate::row::lemma_blank_ok(old(self)@.size.cols as nat, bg);
        }
        let mut i: usize = lo as usize;
        while i < hi as usize
            invariant
                lo as int <= i as int <= hi as int,
                hi as int <= self.rows@.len(),
                self.size == old(self).size,
                self.pos == old(self).pos,
                self.saved_pos == old(self).saved_pos,
                self.scroll_top == old(self).scroll_top,
                self.scroll_bottom == old(self).scroll_bottom,
                self.origin_mode == old(self).origin_mode,
                self.saved_origin_mode == old(self).saved_origin_mode,
                self.rows@.len() == old(self)@.rows.len(),
                old(self)@.size.cols >= 1,
                all_rows_ok(views(self.rows@), self.size.cols),
                forall|k: int|
                    0 <= k < self.rows@.len() ==> views(self.rows@)[k] == (if lo as int <= k
                        < i as int {
                        RowView::blank(old(self)@.size.cols as nat, bg)
                    } else {
                        old(self)@.rows[k]
                    }),
            decreases hi as int - i as int,
        {
            let ghost before = self.rows@;
            let r = row_at(&mut self.rows, i);
            proof {
                crate::row::lemma_views_index(before, i as int);
            }
            r.clear(bg);
            proof {
                crate::row::lemma_views_update(before, i as int, self.rows@[i as int]);
                crate::row::lemma_views_index(self.rows@, i as int);
                assert forall|k: int| 0 <= k < self.rows@.len() implies (#[trigger] views(
                    self.rows@,
                )[k]).cells.len() == self.size.cols && views(self.rows@)[k].wf() by {
                    if k != i as int {
                        assert(views(self.rows@)[k] == views(before)[k]);
                    } else {
                        crate::row::lemma_blank_ok(old(self)@.size.cols as nat, bg);
                    }
                }
            }
            i = i + 1;
        }
        proof {
            assert(self@ =~= (GridView {
                rows: Seq::new(
                    old(self)@.rows.len(),
                    |i: int|
                        if lo as int <= i < hi as int {
                            RowView::blank(old(self)@.size.cols as nat, bg)
                        } else {
                            old(self)@.rows[i]
                        },
                ),
                ..old(self)@
            }));
        }
    }

    /// Clears every row to blanks over `bg`.
    pub fn erase_all(&mut self, bgcolor: Color)
        requires
            old(self)@.wf(),
        ensures
            final(self)@.wf(),
            final(self)@ == (GridView {
                rows: Seq::new(
                    old(self)@.rows.len(),
                    |i: int| RowView::blank(old(self)@.size.cols as nat, bgcolor),
                ),
                ..old(self)@
            }),
    {
        let hi = self.size.rows;
        self.clear_rows(0, hi, bgcolor);
        proof {
            assert(self@.rows =~= Seq::new(
                old(self)@.rows.len(),
                |i: int| RowView::blank(old(self)@.size.cols as nat, bgcolor),
            ));
            assert(self@ =~= (GridView { rows: self@.rows, ..old(self)@ }));
        }
    }

    /// Clears every row strictly after the cursor row, then the cursor row
    /// from the cursor column to its end (which also clears its wrap flag).
    pub fn erase_all_forward(&mut self, bgcolor: Color)
        requires
            old(self)@.wf(),
        ensures
            final(self)@.wf(),
            final(self)@ == (GridView {
                rows: Seq::new(
                    old(self)@.rows.len(),
                    |i: int|
                        if i > old(self)@.pos.row as int {
                            RowView::blank(old(self)@.size.cols as nat, bgcolor)
                        } else if i == old(self)@.pos.row as int {
                            RowView {
                                cells: Seq::new(
                                    old(self)@.size.cols as nat,
                                    |j: int|
                                        if j < old(self)@.pos.col as int {
                                            old(self)@.rows[i].cells[j]
                                        } else {
                                            Cell::spec_blank(bgcolor)
                                        },
                                ),
                                wrapped: false,
                            }
                        } else {
                            old(self)@.rows[i]
                        },
                ),
                ..old(self)@
            }),
    {
        let lo = if self.pos.row < self.size.rows - 1 {
            self.pos.row + 1
        } else {
            self.size.rows
        };
        let hi = self.size.rows;
        self.clear_rows(lo, hi, bgcolor);
        self.erase_row_forward(bgcolor);
        proof {
            assert(self@.rows =~= Seq::new(
                old(self)@.rows.len(),
                |i: int|
                    if i > old(self)@.pos.row as int {
                        RowView::blank(old(self)@.size.cols as nat, bgcolor)
                    } else if i == old(self)@.pos.row as int {
                        RowView {
                            cells: Seq::new(
                                old(self)@.size.cols as nat,
                                |j: int|
                                    if j < old(self)@.pos.col as int {
                                        old(self)@.rows[i].cells[j]
                                    } else {
                                        Cell::spec_blank(bgcolor)
                                    },
                            ),
                            wrapped: false,
                        }
                    } else {
                        old(self)@.rows[i]
                    },
            ));
            assert(self@ =~= (GridView { rows: self@.rows, ..old(self)@ }));
        }
    }

    /// Clears every row strictly before the cursor row, then the cursor row
    /// from its start through the cursor column.
    pub fn erase_all_backward(&mut self, bgcolor: Color)
        requires
            old(self)@.wf(),
        ensures
            final(self)@.wf(),
            final(self)@ == (GridView {
                rows: Seq::new(
                    old(self)@.rows.len(),
                    |i: int|
                        if i < old(self)@.pos.row as int {
                            RowView::blank(old(self)@.size.cols as nat, bgcolor)
                        } else if i == old(self)@.pos.row as int {
                            RowView {
                                cells: Seq::new(
                                    old(self)@.size.cols as nat,
                                    |j: int|
                                        if j <= old(self)@.pos.col as int {
                                            Cell::spec_blank(bgcolor)
                                        } else {
                                            old(self)@.rows[i].cells[j]
                                        },
                                ),
                                wrapped: old(self)@.rows[i].wrapped,
                            }
                        } else {
                            old(self)@.rows[i]
                        },
                ),
                ..old(self)@
            }),
    {
        let lo: u16 = 0;
        let hi = self.pos.row;
        self.clear_rows(lo, hi, bgcolor);
        self.erase_row_backward(bgcolor);
        proof {
            assert(self@.rows =~= Seq::new(
                old(self)@.rows.len(),
                |i: int|
                    if i < old(self)@.pos.row as int {
                        RowView::blank(old(self)@.size.cols as nat, bgcolor)
                    } else if i == old(self)@.pos.row as int {
                        RowView {
                            cells: Seq::new(
                                old(self)@.size.cols as nat,
                                |j: int|
                                    if j <= old(self)@.pos.col as int {
                                        Cell::spec_blank(bgcolor)
                                    } else {
                                        old(self)@.rows[i].cells[j]
                                    },
                            ),
                            wrapped: old(self)@.rows[i].wrapped,
                        }
                    } else {
                        old(self)@.rows[i]
                    },
            ));
            assert(self@ =~= (GridView { rows: self@.rows, ..old(self)@ }));
        }
    }

    /// Clears the cursor row to blanks over `bg`.
    pub fn erase_row(&mut self, bgcolor: Color)
        requires
            old(self)@.wf(),
        ensures
            final(self)@.wf(),
            final(self)@ == (GridView {
                rows: old(self)@.rows.update(
                    old(self)@.pos.row as int,
                    RowView::blank(old(self)@.size.cols as nat, bgcolor),
                ),
                ..old(self)@
            }),
    {
        let ghost before = self.rows@;
        let r = self.current_row_mut();
        proof {
            crate::row::lemma_views_index(before, old(self)@.pos.row as int);
        }
        r.clear(bgcolor);
        proof {
            let p = old(self)@.pos.row as int;
            let cols = old(self)@.size.cols;
            crate::row::lemma_views_update(before, p, self.rows@[p]);
            crate::row::lemma_views_index(self.rows@, p);
            let target = RowView::blank(old(self)@.size.cols as nat, bgcolor);
            assert(self.rows@[p]@ =~= target);
            assert(target.cells.len() == cols);
            assert(target.wf()) by {
                assert(old(self)@.rows[p].wf());
                assert forall|j: int| 0 <= j < target.cells.len() implies (#[trigger] target.cells[j]).wf() by {
                    assert(0 <= j < old(self)@.rows[p].cells.len() ==> old(self)@.rows[p].cells[j].wf());
                }
            };
            lemma_rows_update_ok(old(self)@.rows, p, target, cols);
            assert(views(self.rows@) =~= old(self)@.rows.update(p, target));
            assert(self@ =~= (GridView { rows: old(self)@.rows.update(p, target), ..old(self)@ }));
        }
    }

    /// Clears the cursor row's wrap flag and its cells from the cursor
    /// column to the end of the row.
    pub fn erase_row_forward(&mut self, bgcolor: Color)
        requires
            old(self)@.wf(),
        ensures
            final(self)@.wf(),
            final(self)@ == (GridView {
                rows: old(self)@.rows.update(
                    old(self)@.pos.row as int,
                    RowView {
                        cells: Seq::new(
                            old(self)@.size.cols as nat,
                            |j: int|
                                if j < old(self)@.pos.col as int {
                                    old(self)@.rows[old(self)@.pos.row as int].cells[j]
                                } else {
                                    Cell::spec_blank(bgcolor)
                                },
                        ),
                        wrapped: false,
                    },
                ),
                ..old(self)@
            }),
    {
        let col = self.pos.col;
        let ghost before = self.rows@;
        let r = self.current_row_mut();
        proof {
            crate::row::lemma_views_index(before, old(self)@.pos.row as int);
        }
        r.wrap(false);
        r.clear_from(col, bgcolor);
        proof {
            let p = old(self)@.pos.row as int;
            let cols = old(self)@.size.cols;
            crate::row::lemma_views_update(before, p, self.rows@[p]);
            crate::row::lemma_views_index(self.rows@, p);
            let target = RowView {
                cells: Seq::new(
                    old(self)@.size.cols as nat,
                    |j: int|
                        if j < old(self)@.pos.col as int {
                            old(self)@.rows[old(self)@.pos.row as int].cells[j]
                        } else {
                            Cell::spec_blank(bgcolor)
                        },
                ),
                wrapped: false,
            };
            assert(self.rows@[p]@ =~= target);
            assert(target.cells.len() == cols);
            assert(target.wf()) by {
                assert(old(self)@.rows[p].wf());
                assert forall|j: int| 0 <= j < target.cells.len() implies (#[trigger] target.cells[j]).wf() by {
                    assert(0 <= j < old(self)@.rows[p].cells.len() ==> old(self)@.rows[p].cells[j].wf());
                }
            };
            lemma_rows_update_ok(old(self)@.rows, p, target, cols);
            assert(views(self.rows@) =~= old(self)@.rows.update(p, target));
            assert(self@ =~= (GridView { rows: old(self)@.rows.update(p, target), ..old(self)@ }));
        }
    }

    /// Clears the cursor row's cells from its start through the cursor
    /// column.
    pub fn erase_row_backward(&mut self, bgcolor: Color)
        requires
            old(self)@.wf(),
        ensures
            final(self)@.wf(),
            final(self)@ == (GridView {
                rows: old(self)@.rows.update(
                    old(self)@.pos.row as int,
                    RowView {
                        cells: Seq::new(
                            old(self)@.size.cols as nat,
                            |j: int|
                                if j <= old(self)@.pos.col as int {
                                    Cell::spec_blank(bgcolor)
                                } else {
                                    old(self)@.rows[old(self)@.pos.row as int].cells[j]
                                },
                        ),
                        wrapped: old(self)@.rows[old(self)@.pos.row as int].wrapped,
                    },
                ),
                ..old(self)@
            }),
    {
        let col = self.pos.col;
        let ghost before = self.rows@;
        let r = self.current_row_mut();
        proof {
            crate::row::lemma_views_index(before, old(self)@.pos.row as int);
        }
        r.clear_to(col, bgcolor);
        proof {
            let p = old(self)@.pos.row as int;
            let cols = old(self)@.size.cols;
            crate::row::lemma_views_update(before, p, self.rows@[p]);
            crate::row::lemma_views_index(self.rows@, p);
            let target = RowView {
                cells: Seq::new(
                    old(self)@.size.cols as nat,
                    |j: int|
                        if j <= old(self)@.pos.col as int {
                            Cell::spec_blank(bgcolor)
                        } else {
                            old(self)@.rows[old(self)@.pos.row as int].cells[j]
                        },
                ),
                wrapped: old(self)@.rows[old(self)@.pos.row as int].wrapped,
            };
            assert(self.rows@[p]@ =~= target);
            assert(target.cells.len() == cols);
            assert(target.wf()) by {
                assert(old(self)@.rows[p].wf());
                assert forall|j: int| 0 <= j < target.cells.len() implies (#[trigger] target.cells[j]).wf() by {
                    assert(0 <= j < old(self)@.rows[p].cells.len() ==> old(self)@.rows[p].cells[j].wf());
                }
            };
            lemma_rows_update_ok(old(self)@.rows, p, target, cols);
            assert(views(self.rows@) =~= old(self)@.rows.update(p, target));
            assert(self@ =~= (GridView { rows: old(self)@.rows.update(p, target), ..old(self)@ }));
        }
    }

    /// Inserts `count` blank cells at the cursor column, shifting existing
    /// cells right; cells pushed past the grid width are lost.
    pub fn insert_cells(&mut self, count: u16)
        requires
            old(self)@.wf(),
            old(self)@.pos.col <= old(self)@.size.cols,
        ensures
            final(self)@.wf(),
            final(self)@ == (GridView {
                rows: old(self)@.rows.update(
                    old(self)@.pos.row as int,
                    RowView {
                        cells: crate::row::insert_blanks(
                            old(self)@.rows[old(self)@.pos.row as int].cells,
                            old(self)@.pos.col as int,
                            count as nat,
                        ).take(old(self)@.size.cols as int),
                        wrapped: old(self)@.rows[old(self)@.pos.row as int].wrapped,
                    },
                ),
                ..old(self)@
            }),
    {
        let col = self.pos.col;
        let cols = self.size.cols;
        let ghost before = self.rows@;
        let r = self.current_row_mut();
        proof {
            crate::row::lemma_views_index(before, old(self)@.pos.row as int);
        }
        r.insert_cells(col, count, cols);
        proof {
            let p = old(self)@.pos.row as int;
            let cols = old(self)@.size.cols;
            crate::row::lemma_views_update(before, p, self.rows@[p]);
            crate::row::lemma_views_index(self.rows@, p);
            let target = RowView {
                cells: crate::row::insert_blanks(
                    old(self)@.rows[old(self)@.pos.row as int].cells,
                    old(self)@.pos.col as int,
                    count as nat,
                ).take(old(self)@.size.cols as int),
                wrapped: old(self)@.rows[old(self)@.pos.row as int].wrapped,
            };
            assert(self.rows@[p]@ =~= target);
            assert(target.cells.len() == cols);
            assert(target.wf()) by {
                assert(old(self)@.rows[p].wf());
                assert forall|j: int| 0 <= j < target.cells.len() implies (#[trigger] target.cells[j]).wf() by {
                    assert(0 <= j < old(self)@.rows[p].cells.len() ==> old(self)@.rows[p].cells[j].wf());
                }
            };
            lemma_rows_update_ok(old(self)@.rows, p, target, cols);
            assert(views(self.rows@) =~= old(self)@.rows.update(p, target));
            assert(self@ =~= (GridView { rows: old(self)@.rows.update(p, target), ..old(self)@ }));
        }
    }

    /// Removes up to `count` cells at the cursor column (clamped to the
    /// cells right of the cursor), shifting later cells left and padding the
    /// row back to the grid width with blanks.
    pub fn delete_cells(&mut self, count: u16)
        requires
            old(self)@.wf(),
            old(self)@.pos.col <= old(self)@.size.cols,
        ensures
            final(self)@.wf(),
            ({
                let cells = old(self)@.rows[old(self)@.pos.row as int].cells;
                let k = min_u16(count, (old(self)@.size.cols - old(self)@.pos.col) as u16);
                final(self)@ == (GridView {
                    rows: old(self)@.rows.update(
                        old(self)@.pos.row as int,
                        RowView {
                            cells: crate::row::pad_to(
                                cells.subrange(0, old(self)@.pos.col as int) + cells.subrange(
                                    old(self)@.pos.col as int + k as int,
                                    cells.len() as int,
                                ),
                                old(self)@.size.cols as int,
                            ),
                            wrapped: old(self)@.rows[old(self)@.pos.row as int].wrapped,
                        },
                    ),
                    ..old(self)@
                })
            }),
    {
        let col = self.pos.col;
        let cols = self.size.cols;
        let limit = cols - col;
        let k = if count < limit {
            count
        } else {
            limit
        };
        let ghost before = self.rows@;
        let r = self.current_row_mut();
        proof {
            crate::row::lemma_views_index(before, old(self)@.pos.row as int);
        }
        r.delete_cells(col, k, cols);
        proof {
            let p = old(self)@.pos.row as int;
            let cols = old(self)@.size.cols;
            crate::row::lemma_views_update(before, p, self.rows@[p]);
            crate::row::lemma_views_index(self.rows@, p);
            let target = ({
                let cells = old(self)@.rows[old(self)@.pos.row as int].cells;
                let k = min_u16(count, (old(self)@.size.cols - old(self)@.pos.col) as u16);
                RowView {
                    cells: crate::row::pad_to(
                        cells.subrange(0, old(self)@.pos.col as int) + cells.subrange(
                            old(self)@.pos.col as int + k as int,
                            cells.len() as int,
                        ),
                        old(self)@.size.cols as int,
                    ),
                    wrapped: old(self)@.rows[old(self)@.pos.row as int].wrapped,
                }
            });
            assert(self.rows@[p]@ =~= target);
            assert(target.cells.len() == cols);
            assert(target.wf()) by {
                assert(old(self)@.rows[p].wf());
                assert forall|j: int| 0 <= j < target.cells.len() implies (#[trigger] target.cells[j]).wf() by {
                    assert(0 <= j < old(self)@.rows[p].cells.len() ==> old(self)@.rows[p].cells[j].wf());
                }
            };
            lemma_rows_update_ok(old(self)@.rows, p, target, cols);
            assert(views(self.rows@) =~= old(self)@.rows.update(p, target));
            assert(self@ =~= (GridView { rows: old(self)@.rows.update(p, target), ..old(self)@ }));
        }
    }

    /// Clears `count` cells in place starting at the cursor column, without
    /// shifting.
    pub fn erase_cells(&mut self, count: u16, bgcolor: Color)
        requires
            old(self)@.wf(),
        ensures
            final(self)@.wf(),
            final(self)@ == (GridView {
                rows: old(self)@.rows.update(
                    old(self)@.pos.row as int,
                    RowView {
                        cells: Seq::new(
                            old(self)@.size.cols as nat,
                            |j: int|
                                if old(self)@.pos.col as int <= j < old(self)@.pos.col as int
                                    + count as int {
                                    Cell::spec_blank(bgcolor)
                                } else {
                                    old(self)@.rows[old(self)@.pos.row as int].cells[j]
                                },
                        ),
                        wrapped: old(self)@.rows[old(self)@.pos.row as int].wrapped,
                    },
                ),
                ..old(self)@
            }),
    {
        let col = self.pos.col;
        let ghost before = self.rows@;
        let r = self.current_row_mut();
        proof {
            crate::row::lemma_views_index(before, old(self)@.pos.row as int);
        }
        r.clear_range(col, count, bgcolor);
        proof {
            let p = old(self)@.pos.row as int;
            let cols = old(self)@.size.cols;
            crate::row::lemma_views_update(before, p, self.rows@[p]);
            crate::row::lemma_views_index(self.rows@, p);
            let target = RowView {
                cells: Seq::new(
                    old(self)@.size.cols as nat,
                    |j: int|
                        if old(self)@.pos.col as int <= j < old(self)@.pos.col as int + count as int {
                            Cell::spec_blank(bgcolor)
                        } else {
                            old(self)@.rows[old(self)@.pos.row as int].cells[j]
                        },
                ),
                wrapped: old(self)@.rows[old(self)@.pos.row as int].wrapped,
            };
            assert(self.rows@[p]@ =~= target);
            assert(target.cells.len() == cols);
            assert(target.wf()) by {
                assert(old(self)@.rows[p].wf());
                assert forall|j: int| 0 <= j < target.cells.len() implies (#[trigger] target.cells[j]).wf() by {
                    assert(0 <= j < old(self)@.rows[p].cells.len() ==> old(self)@.rows[p].cells[j].wf());
                }
            };
            lemma_rows_update_ok(old(self)@.rows, p, target, cols);
            assert(views(self.rows@) =~= old(self)@.rows.update(p, target));
            assert(self@ =~= (GridView { rows: old(self)@.rows.update(p, target), ..old(self)@ }));
        }
    }

    /// `count` times, inserts a blank row at `ins` and removes the row at
    /// `rem` (scroll-up-like rotation).
    fn rotate_insert_remove(&mut self, ins: u16, rem: u16, count: u16)
        requires
            old(self)@.wf(),
            ins as int <= old(self)@.rows.len(),
            rem as int <= old(self)@.rows.len(),
        ensures
            final(self)@.wf(),
            final(self)@ == (GridView {
                rows: iter_insert_remove(
                    old(self)@.rows,
                    ins as int,
                    rem as int,
                    RowView::blank(old(self)@.size.cols as nat, Color::Default),
                    count as nat,
                ),
                ..old(self)@
            }),
    {
        let ghost blank = RowView::blank(self@.size.cols as nat, Color::Default);
        let ghost orig = self@.rows;
        proof {
            crate::row::lemma_blank_ok(self@.size.cols as nat, Color::Default);
        }
        let mut i: u16 = 0;
        while i < count
            invariant
                i <= count,
                self.size == old(self).size,
                self.pos == old(self).pos,
                self.saved_pos == old(self).saved_pos,
                self.scroll_top == old(self).scroll_top,
                self.scroll_bottom == old(self).scroll_bottom,
                self.origin_mode == old(self).origin_mode,
                self.saved_origin_mode == old(self).saved_origin_mode,
                blank == RowView::blank(old(self)@.size.cols as nat, Color::Default),
                blank.cells.len() == old(self)@.size.cols,
                blank.wf(),
                orig == old(self)@.rows,
                ins as int <= orig.len(),
                rem as int <= orig.len(),
                old(self)@.size.cols >= 1,
                views(self.rows@) == iter_insert_remove(
                    orig,
                    ins as int,
                    rem as int,
                    blank,
                    i as nat,
                ),
                self.rows@.len() == orig.len(),
                all_rows_ok(views(self.rows@), old(self)@.size.cols),
            decreases count - i,
        {
            let nr = self.new_row();
            let ghost before = self.rows@;
            self.rows.insert(ins as usize, nr);
            let ghost mid = self.rows@;
            self.rows.remove(rem as usize);
            proof {
                crate::row::lemma_views_insert(before, ins as int, nr);
                crate::row::lemma_views_remove(mid, rem as int);
                assert(views(self.rows@) == insert_remove(
                    views(before),
                    ins as int,
                    rem as int,
                    blank,
                ));
                assert(iter_insert_remove(orig, ins as int, rem as int, blank, (i + 1) as nat)
                    == insert_remove(
                    iter_insert_remove(orig, ins as int, rem as int, blank, i as nat),
                    ins as int,
                    rem as int,
                    blank,
                ));
                lemma_insert_remove_ok(
                    views(before),
                    ins as int,
                    rem as int,
                    blank,
                    old(self)@.size.cols,
                );
            }
            i = i + 1;
        }
        proof {
            assert(self@ =~= (GridView {
                rows: iter_insert_remove(orig, ins as int, rem as int, blank, count as nat),
                ..old(self)@
            }));
        }
    }

    /// `count` times, removes the row at `rem` and inserts a blank row at
    /// `ins` (scroll-down-like rotation).
    fn rotate_remove_insert(&mut self, rem: u16, ins: u16, count: u16)
        requires
            old(self)@.wf(),
            (rem as int) < old(self)@.rows.len(),
            (ins as int) < old(self)@.rows.len(),
        ensures
            final(self)@.wf(),
            final(self)@ == (GridView {
                rows: iter_remove_insert(
                    old(self)@.rows,
                    rem as int,
                    ins as int,
                    RowView::blank(old(self)@.size.cols as nat, Color::Default),
                    count as nat,
                ),
                ..old(self)@
            }),
    {
        let ghost blank = RowView::blank(self@.size.cols as nat, Color::Default);
        let ghost orig = self@.rows;
        proof {
            crate::row::lemma_blank_ok(self@.size.cols as nat, Color::Default);
        }
        let mut i: u16 = 0;
        while i < count
            invariant
                i <= count,
                self.size == old(self).size,
                self.pos == old(self).pos,
                self.saved_pos == old(self).saved_pos,
                self.scroll_top == old(self).scroll_top,
                self.scroll_bottom == old(self).scroll_bottom,
                self.origin_mode == old(self).origin_mode,
                self.saved_origin_mode == old(self).saved_origin_mode,
                blank == RowView::blank(old(self)@.size.cols as nat, Color::Default),
                blank.cells.len() == old(self)@.size.cols,
                blank.wf(),
                orig == old(self)@.rows,
                (rem as int) < orig.len(),
                (ins as int) < orig.len(),
                old(self)@.size.cols >= 1,
                views(self.rows@) == iter_remove_insert(
                    orig,
                    rem as int,
                    ins as int,
                    blank,
                    i as nat,
                ),
                self.rows@.len() == orig.len(),
                all_rows_ok(views(self.rows@), old(self)@.size.cols),
            decreases count - i,
        {
            let nr = self.new_row();
            let ghost before = self.rows@;
            self.rows.remove(rem as usize);
            let ghost mid = self.rows@;
            self.rows.insert(ins as usize, nr);
            proof {
                crate::row::lemma_views_remove(before, rem as int);
                crate::row::lemma_views_insert(mid, ins as int, nr);
                assert(views(self.rows@) == remove_insert(
                    views(before),
                    rem as int,
                    ins as int,
                    blank,
                ));
                assert(iter_remove_insert(orig, rem as int, ins as int, blank, (i + 1) as nat)
                    == remove_insert(
                    iter_remove_insert(orig, rem as int, ins as int, blank, i as nat),
                    rem as int,
                    ins as int,
                    blank,
                ));
                lemma_remove_insert_ok(
                    views(before),
                    rem as int,
                    ins as int,
                    blank,
                    old(self)@.size.cols,
                );
            }
            i = i + 1;
        }
        proof {
            assert(self@ =~= (GridView {
                rows: iter_remove_insert(orig, rem as int, ins as int, blank, count as nat),
                ..old(self)@
            }));
        }
    }

    /// Scrolls the region up by `count` lines, clamped to the lines between
    /// the scroll top and the bottom of the grid: content moves up and blank
    /// lines appear at the bottom of the region.
    pub fn scroll_up(&mut self, count: u16)
        requires
            old(self)@.wf(),
        ensures
            final(self)@.wf(),
            final(self)@ == (GridView {
                rows: iter_insert_remove(
                    old(self)@.rows,
                    old(self)@.scroll_bottom as int + 1,
                    old(self)@.scroll_top as int,
                    RowView::blank(old(self)@.size.cols as nat, Color::Default),
                    min_u16(count, (old(self)@.size.rows - old(self)@.scroll_top) as u16) as nat,
                ),
                ..old(self)@
            }),
    {
        let limit = self.size.rows - self.scroll_top;
        let k = if count < limit {
            count
        } else {
            limit
        };
        let ins = self.scroll_bottom + 1;
        let rem = self.scroll_top;
        self.rotate_insert_remove(ins, rem, k);
    }

    /// Scrolls the region down by `count` lines: content moves down and
    /// blank lines appear at the top of the region.
    pub fn scroll_down(&mut self, count: u16)
        requires
            old(self)@.wf(),
        ensures
            final(self)@.wf(),
            final(self)@ == (GridView {
                rows: iter_remove_insert(
                    old(self)@.rows,
                    old(self)@.scroll_bottom as int,
                    old(self)@.scroll_top as int,
                    RowView::blank(old(self)@.size.cols as nat, Color::Default),
                    count as nat,
                ),
                ..old(self)@
            }),
    {
        let rem = self.scroll_bottom;
        let ins = self.scroll_top;
        self.rotate_remove_insert(rem, ins, count);
    }

    /// `count` times, removes the row at the scroll bottom and inserts a
    /// fresh blank row at the cursor row: content below the cursor shifts
    /// down, overflow past the scroll bottom is discarded.
    pub fn insert_lines(&mut self, count: u16)
        requires
            old(self)@.wf(),
        ensures
            final(self)@.wf(),
            final(self)@ == (GridView {
                rows: iter_remove_insert(
                    old(self)@.rows,
                    old(self)@.scroll_bottom as int,
                    old(self)@.pos.row as int,
                    RowView::blank(old(self)@.size.cols as nat, Color::Default),
                    count as nat,
                ),
                ..old(self)@
            }),
    {
        let rem = self.scroll_bottom;
        let ins = self.pos.row;
        self.rotate_remove_insert(rem, ins, count);
    }

    /// At most `count` times (clamped to the rows below the cursor), inserts
    /// a fresh blank row just after the scroll bottom and removes the cursor
    /// row: content below the cursor shifts up toward it.
    pub fn delete_lines(&mut self, count: u16)
        requires
            old(self)@.wf(),
        ensures
            final(self)@.wf(),
            final(self)@ == (GridView {
                rows: iter_insert_remove(
                    old(self)@.rows,
                    old(self)@.scroll_bottom as int + 1,
                    old(self)@.pos.row as int,
                    RowView::blank(old(self)@.size.cols as nat, Color::Default),
                    min_u16(count, (old(self)@.size.rows - old(self)@.pos.row) as u16) as nat,
                ),
                ..old(self)@
            }),
    {
        let limit = self.size.rows - self.pos.row;
        let k = if count < limit {
            count
        } else {
            limit
        };
        let ins = self.scroll_bottom + 1;
        let rem = self.pos.row;
        self.rotate_insert_remove(ins, rem, k);
    }

    /// Sets the scroll region to `[top, bottom]` (bottom clamped to the
    /// grid; an empty or inverted request resets to full height) and homes
    /// the cursor to the top of the region.
    pub fn set_scroll_region(&mut self, top: u16, bottom: u16)
        requires
            old(self)@.wf(),
        ensures
            final(self)@.wf(),
            ({
                let b = min_u16(bottom, (old(self)@.size.rows - 1) as u16);
                let t = if top < b {
                    top
                } else {
                    0u16
                };
                let b2 = if top < b {
                    b
                } else {
                    (old(self)@.size.rows - 1) as u16
                };
                final(self)@ == (GridView {
                    scroll_top: t,
                    scroll_bottom: b2,
                    pos: Pos { row: t, col: 0 },
                    ..old(self)@
                })
            }),
    {
        let bottom = if bottom < self.size.rows - 1 {
            bottom
        } else {
            self.size.rows - 1
        };
        if top < bottom {
            self.scroll_top = top;
            self.scroll_bottom = bottom;
        } else {
            self.scroll_top = 0;
            self.scroll_bottom = self.size.rows - 1;
        }
        self.pos.row = self.scroll_top;
        self.pos.col = 0;
        proof {
            assert(self@ =~= (GridView {
                scroll_top: self@.scroll_top,
                scroll_bottom: self@.scroll_bottom,
                pos: self@.pos,
                ..old(self)@
            }));
        }
    }

    /// Sets or clears origin mode and re-homes the cursor under the new
    /// mode: to the top of the scroll region when set, to the grid origin
    /// when cleared.
    pub fn set_origin_mode(&mut self, mode: bool)
        requires
            old(self)@.wf(),
        ensures
            final(self)@.wf(),
            final(self)@ == (GridView {
                origin_mode: mode,
                pos: Pos {
                    row: if mode {
                        old(self)@.scroll_top
                    } else {
                        0u16
                    },
                    col: 0,
                },
                ..old(self)@
            }),
    {
        self.origin_mode = mode;
        self.set_pos(Pos { row: 0, col: 0 });
        proof {
            assert(self@ =~= (GridView { origin_mode: mode, pos: self@.pos, ..old(self)@ }));
        }
    }

    /// Moves the cursor row down by `count`; overshoot past the scroll
    /// bottom scrolls the region up by that many lines instead of leaving
    /// the cursor out of bounds.
    pub fn row_inc_scroll(&mut self, count: u16)
        requires
            old(self)@.wf(),
        ensures
            final(self)@.wf(),
            ({
                let target = old(self)@.pos.row.saturating_add(count);
                let lines: int = if target > old(self)@.scroll_bottom {
                    target - old(self)@.scroll_bottom
                } else {
                    0
                };
                let k: int = if lines <= old(self)@.size.rows - old(self)@.scroll_top {
                    lines
                } else {
                    old(self)@.size.rows - old(self)@.scroll_top
                };
                final(self)@ == (GridView {
                    pos: Pos {
                        row: min_u16(target, old(self)@.scroll_bottom),
                        col: old(self)@.pos.col,
                    },
                    rows: iter_insert_remove(
                        old(self)@.rows,
                        old(self)@.scroll_bottom as int + 1,
                        old(self)@.scroll_top as int,
                        RowView::blank(old(self)@.size.cols as nat, Color::Default),
                        k as nat,
                    ),
                    ..old(self)@
                })
            }),
    {
        self.pos.row = self.pos.row.saturating_add(count);
        let lines = self.row_clamp_bottom(true);
        self.scroll_up(lines);
        proof {
            assert(self@ =~= (GridView { pos: self@.pos, rows: self@.rows, ..old(self)@ }));
        }
    }

    /// Moves the cursor row up by `count`; overshoot past the scroll top —
    /// both the part absorbed by the saturating subtraction and the part
    /// absorbed by the clamp — scrolls the region down by that many lines.
    pub fn row_dec_scroll(&mut self, count: u16)
        requires
            old(self)@.wf(),
            count > old(self)@.pos.row ==> old(self)@.scroll_top as int + (count
                - old(self)@.pos.row) <= u16::MAX as int,
        ensures
            final(self)@.wf(),
            ({
                let extra: int = if count > old(self)@.pos.row {
                    count - old(self)@.pos.row
                } else {
                    0
                };
                let r1 = old(self)@.pos.row.saturating_sub(count);
                let lines: int = if r1 < old(self)@.scroll_top {
                    old(self)@.scroll_top - r1
                } else {
                    0
                };
                final(self)@ == (GridView {
                    pos: Pos {
                        row: if r1 < old(self)@.scroll_top {
                            old(self)@.scroll_top
                        } else {
                            r1
                        },
                        col: old(self)@.pos.col,
                    },
                    rows: iter_remove_insert(
                        old(self)@.rows,
                        old(self)@.scroll_bottom as int,
                        old(self)@.scroll_top as int,
                        RowView::blank(old(self)@.size.cols as nat, Color::Default),
                        (lines + extra) as nat,
                    ),
                    ..old(self)@
                })
            }),
    {
        let extra = if count > self.pos.row {
            count - self.pos.row
        } else {
            0
        };
        self.pos.row = self.pos.row.saturating_sub(count);
        let lines = self.row_clamp_top(true);
        self.scroll_down(lines + extra);
        proof {
            assert(self@ =~= (GridView { pos: self@.pos, rows: self@.rows, ..old(self)@ }));
        }
    }

    /// When fewer than `width` columns remain before the right edge, marks
    /// the current row as wrapped, resets the column to zero, and advances
    /// the row with the same scroll-on-overflow rule as a line feed.
    pub fn col_wrap(&mut self, width: u16)
        requires
            old(self)@.wf(),
            1 <= width <= old(self)@.size.cols,
        ensures
            final(self)@.wf(),
            old(self)@.pos.col <= old(self)@.size.cols - width ==> final(self)@ == old(self)@,
            old(self)@.pos.col > old(self)@.size.cols - width ==> ({
                let marked = old(self)@.rows.update(
                    old(self)@.pos.row as int,
                    RowView {
                        cells: old(self)@.rows[old(self)@.pos.row as int].cells,
                        wrapped: true,
                    },
                );
                let target = (old(self)@.pos.row + 1) as u16;
                let lines: int = if target > old(self)@.scroll_bottom {
                    target - old(self)@.scroll_bottom
                } else {
                    0
                };
                let k: int = if lines <= old(self)@.size.rows - old(self)@.scroll_top {
                    lines
                } else {
                    old(self)@.size.rows - old(self)@.scroll_top
                };
                final(self)@ == (GridView {
                    pos: Pos { row: min_u16(target, old(self)@.scroll_bottom), col: 0 },
                    rows: iter_insert_remove(
                        marked,
                        old(self)@.scroll_bottom as int + 1,
                        old(self)@.scroll_top as int,
                        RowView::blank(old(self)@.size.cols as nat, Color::Default),
                        k as nat,
                    ),
                    ..old(self)@
                })
            }),
    {
        if self.pos.col > self.size.cols - width {
            let ghost before = self.rows@;
            let r = self.current_row_mut();
            r.wrap(true);
            proof {
                crate::row::lemma_views_update(before, old(self)@.pos.row as int, self.rows@[old(self)@.pos.row as int]);
                crate::row::lemma_views_index(before, old(self)@.pos.row as int);
                assert(views(self.rows@) =~= old(self)@.rows.update(
                    old(self)@.pos.row as int,
                    RowView {
                        cells: old(self)@.rows[old(self)@.pos.row as int].cells,
                        wrapped: true,
                    },
                ));
                assert forall|i: int| 0 <= i < views(self.rows@).len() implies (#[trigger] views(
                    self.rows@,
                )[i]).cells.len() == self.size.cols && views(self.rows@)[i].wf() by {
                    if i != old(self)@.pos.row as int {
                        assert(views(self.rows@)[i] == old(self)@.rows[i]);
                    }
                }
            }
            self.pos.col = 0;
            self.row_inc_scroll(1);
            proof {
                assert(self@ =~= (GridView { pos: self@.pos, rows: self@.rows, ..old(self)@ }));
            }
        }
    }

    /// Raises the cursor row to the scroll top when `limit_to_scroll_region`
    /// is set, returning how many rows the clamp absorbed.
    fn row_clamp_top(&mut self, limit_to_scroll_region: bool) -> (r: u16)
        ensures
            final(self)@ == (GridView {
                pos: Pos {
                    row: if limit_to_scroll_region && old(self)@.pos.row < old(self)@.scroll_top {
                        old(self)@.scroll_top
                    } else {
                        old(self)@.pos.row
                    },
                    col: old(self)@.pos.col,
                },
                ..old(self)@
            }),
            r as int == if limit_to_scroll_region && old(self)@.pos.row < old(self)@.scroll_top {
                old(self)@.scroll_top - old(self)@.pos.row
            } else {
                0
            },
    {
        let r: u16;
        if limit_to_scroll_region && self.pos.row < self.scroll_top {
            r = self.scroll_top - self.pos.row;
            self.pos.row = self.scroll_top;
        } else {
            r = 0;
        }
        proof {
            assert(final(self)@ =~= (GridView { pos: final(self)@.pos, ..old(self)@ }));
        }
        r
    }

    /// Lowers the cursor row to the scroll bottom (or the last grid row when
    /// `limit_to_scroll_region` is unset), returning how many rows the clamp
    /// absorbed.
    fn row_clamp_bottom(&mut self, limit_to_scroll_region: bool) -> (r: u16)
        requires
            old(self)@.size.rows >= 1,
        ensures
            ({
                let bound = if limit_to_scroll_region {
                    old(self)@.scroll_bottom
                } else {
                    (old(self)@.size.rows - 1) as u16
                };
                &&& final(self)@ == (GridView {
                    pos: Pos { row: min_u16(old(self)@.pos.row, bound), col: old(self)@.pos.col },
                    ..old(self)@
                })
                &&& r as int == if old(self)@.pos.row > bound {
                    old(self)@.pos.row - bound
                } else {
                    0
                }
            }),
    {
        let bound = if limit_to_scroll_region {
            self.scroll_bottom
        } else {
            self.size.rows - 1
        };
        let r: u16;
        if self.pos.row > bound {
            r = self.pos.row - bound;
            self.pos.row = bound;
        } else {
            r = 0;
        }
        proof {
            assert(final(self)@ =~= (GridView { pos: final(self)@.pos, ..old(self)@ }));
        }
        r
    }

    /// Clamps the cursor column to the grid width.
    fn col_clamp(&mut self)
        requires
            old(self)@.size.cols >= 1,
        ensures
            final(self)@ == (GridView {
                pos: Pos {
                    row: old(self)@.pos.row,
                    col: min_u16(old(self)@.pos.col, (old(self)@.size.cols - 1) as u16),
                },
                ..old(self)@
            }),
    {
        if self.pos.col > self.size.cols - 1 {
            self.pos.col = self.size.cols - 1;
        }
        proof {
            assert(final(self)@ =~= (GridView { pos: final(self)@.pos, ..old(self)@ }));
        }
    }
}

/// The carriage-return/line-feed pair separating unwrapped rows.
pub open spec fn crlf() -> Seq<u8> {
    seq![0x0du8, 0x0au8]
}

/// The home-cursor-plus-clear-screen prefix of a full serialization:
/// `ESC [ H` then `ESC [ J`.
pub open spec fn fmt_prefix() -> Seq<u8> {
    seq![0x1bu8, 0x5bu8, 0x48u8, 0x1bu8, 0x5bu8, 0x4au8]
}

/// The attribute-reset prefix of a diff: `ESC [ m`.
pub open spec fn diff_prefix() -> Seq<u8> {
    seq![0x1bu8, 0x5bu8, 0x6du8]
}

/// The absolute cursor-position escape for `p`, 1-indexed:
/// `ESC [ row ; col H`.
pub open spec fn cursor_pos_bytes(p: Pos) -> Seq<u8> {
    seq![0x1bu8, 0x5bu8] + crate::attrs::dec_digits((p.row + 1) as nat) + seq![0x3bu8]
        + crate::attrs::dec_digits((p.col + 1) as nat) + seq![0x48u8]
}

/// The escape positioning the cursor at the start of 1-indexed row `n`:
/// `ESC [ n ; 1 H`.
pub open spec fn row_pos_bytes(n: int) -> Seq<u8> {
    seq![0x1bu8, 0x5bu8] + crate::attrs::dec_digits(n as nat) + seq![0x3bu8, 0x31u8, 0x48u8]
}

/// The formatted bytes of one row over its full width, entered with
/// attribute state `attrs`.
pub open spec fn row_fmt_bytes_of(r: RowView, cols: u16, attrs: Attrs) -> Seq<u8> {
    let (lo, hi) = crate::row::clip_range(r.cells, 0, cols);
    crate::row::fmt_bytes(r.cells, lo, crate::row::fmt_end(r.cells, lo, hi), attrs)
}

/// The attribute state left after formatting one row.
pub open spec fn row_fmt_attrs_of(r: RowView, cols: u16, attrs: Attrs) -> Attrs {
    let (lo, hi) = crate::row::clip_range(r.cells, 0, cols);
    crate::row::fmt_attrs(r.cells, lo, crate::row::fmt_end(r.cells, lo, hi), attrs)
}

/// The count of cells one row's formatting writes.
pub open spec fn row_fmt_col_of(r: RowView, cols: u16) -> int {
    let (lo, hi) = crate::row::clip_range(r.cells, 0, cols);
    crate::row::fmt_end(r.cells, lo, hi) - lo
}

/// The running state of a full serialization after some prefix of the rows:
/// the bytes so far, the attribute state carried forward, the column count
/// of the last row that produced output, and how many trailing row
/// separators stand at the end of the bytes.
#[verifier::ext_equal]
pub ghost struct FmtAcc {
    pub bytes: Seq<u8>,
    pub attrs: Attrs,
    pub col: int,
    pub trail: int,
}

/// The full-serialization state after the first `n` rows.
pub open spec fn fmt_acc(rows: Seq<RowView>, cols: u16, n: int) -> FmtAcc
    decreases n,
{
    if n <= 0 {
        FmtAcc { bytes: seq![], attrs: Attrs::spec_default(), col: 0, trail: 0 }
    } else {
        let st = fmt_acc(rows, cols, n - 1);
        let b = row_fmt_bytes_of(rows[n - 1], cols, st.attrs);
        let sep: Seq<u8> = if rows[n - 1].wrapped {
            seq![]
        } else {
            crlf()
        };
        FmtAcc {
            bytes: st.bytes + b + sep,
            attrs: row_fmt_attrs_of(rows[n - 1], cols, st.attrs),
            col: if b.len() > 0 {
                row_fmt_col_of(rows[n - 1], cols)
            } else {
                st.col
            },
            trail: if rows[n - 1].wrapped {
                if b.len() > 0 {
                    0
                } else {
                    st.trail
                }
            } else {
                if b.len() > 0 {
                    1
                } else {
                    st.trail + 1
                }
            },
        }
    }
}

pub proof fn lemma_fmt_acc_bounds(rows: Seq<RowView>, cols: u16, n: int)
    requires
        n >= 0,
    ensures
        0 <= fmt_acc(rows, cols, n).trail <= n,
        2 * fmt_acc(rows, cols, n).trail <= fmt_acc(rows, cols, n).bytes.len(),
    decreases n,
{
    if n > 0 {
        lemma_fmt_acc_bounds(rows, cols, n - 1);
    }
}

/// The full serialization of a grid: the clear prefix, the per-row bytes
/// with trailing empty separators stripped, and, when the stream would not
/// already leave the cursor at the grid's cursor, an absolute position
/// escape.
pub open spec fn spec_contents_formatted(g: GridView) -> Seq<u8> {
    let st = fmt_acc(g.rows, g.size.cols, g.rows.len() as int);
    let stripped = st.bytes.take(st.bytes.len() - 2 * st.trail);
    let fin_row = g.rows.len() - st.trail;
    fmt_prefix() + stripped + (if fin_row == g.pos.row as int && st.col == g.pos.col as int {
        seq![]
    } else {
        cursor_pos_bytes(g.pos)
    })
}

/// The running state of a diff serialization: the bytes so far, the
/// attribute state carried forward, and the cursor position the stream
/// leaves the terminal at (initially the previous grid's cursor).
#[verifier::ext_equal]
pub ghost struct DiffAcc {
    pub bytes: Seq<u8>,
    pub attrs: Attrs,
    pub row: int,
    pub col: int,
}

/// The diff-serialization state after the first `n` rows: each row that
/// differs from its counterpart contributes a positioning escape and its
/// diff bytes.
pub open spec fn diff_acc(rows: Seq<RowView>, prev: Seq<RowView>, cols: u16, n: int, start: Pos) -> DiffAcc
    decreases n,
{
    if n <= 0 {
        DiffAcc {
            bytes: seq![],
            attrs: Attrs::spec_default(),
            row: start.row as int,
            col: start.col as int,
        }
    } else {
        let st = diff_acc(rows, prev, cols, n - 1, start);
        let cells = rows[n - 1].cells;
        let (lo, hi) = crate::row::clip_range(cells, 0, cols);
        let end = crate::row::fmt_end(cells, lo, hi);
        let equal = crate::row::cells_equal_in(cells, prev[n - 1].cells, lo, hi);
        let b = crate::row::diff_bytes(cells, prev[n - 1].cells, 0, cols);
        DiffAcc {
            bytes: st.bytes + (if equal {
                seq![]
            } else {
                row_pos_bytes(n)
            }) + b,
            attrs: if equal {
                st.attrs
            } else {
                crate::row::fmt_attrs(cells, lo, end, Attrs::spec_default())
            },
            row: if equal {
                st.row
            } else {
                n - 1
            },
            col: if equal {
                st.col
            } else {
                end - lo
            },
        }
    }
}

/// The diff serialization of `g` against `p`: an attribute reset, the
/// per-row diffs, and, when needed, an absolute cursor-position escape.
pub open spec fn spec_contents_diff(g: GridView, p: GridView) -> Seq<u8> {
    let st = diff_acc(g.rows, p.rows, g.size.cols, g.rows.len() as int, p.pos);
    diff_prefix() + st.bytes + (if g.pos.row as int == st.row && g.pos.col as int == st.col {
        seq![]
    } else {
        cursor_pos_bytes(g.pos)
    })
}

/// The plain-text bytes of the first `n` rows: each row's characters, a
/// line feed after each unwrapped row.
pub open spec fn text_acc(rows: Seq<RowView>, cols: u16, n: int) -> Seq<u8>
    decreases n,
{
    if n <= 0 {
        seq![]
    } else {
        let cells = rows[n - 1].cells;
        let (lo, hi) = crate::row::clip_range(cells, 0, cols);
        text_acc(rows, cols, n - 1) + crate::row::text_bytes(cells, lo, hi) + (if rows[n
            - 1].wrapped {
            seq![]
        } else {
            seq![0x0au8]
        })
    }
}

/// Whether trimming removes this byte from the end of the text dump: the
/// only whitespace the dump can hold is spaces and line feeds.
pub open spec fn is_trim_byte(b: u8) -> bool {
    b == 0x20 || b == 0x0a
}

/// `s` with every trailing space and line feed removed.
pub open spec fn trim_ws(s: Seq<u8>) -> Seq<u8>
    decreases s.len(),
{
    if s.len() == 0 {
        s
    } else if is_trim_byte(s[s.len() - 1]) {
        trim_ws(s.drop_last())
    } else {
        s
    }
}

/// The plain-text dump of a grid, as characters.
pub open spec fn spec_contents(g: GridView) -> Seq<char> {
    trim_ws(text_acc(g.rows, g.size.cols, g.rows.len() as int)).map_values(|b: u8| b as char)
}

/// Appends the absolute cursor-position escape for `p`.
fn push_cursor_pos(out: &mut Vec<u8>, p: Pos)
    ensures
        final(out)@ == old(out)@ + cursor_pos_bytes(p),
{
    out.push(0x1b);
    out.push(0x5bu8);
    let ghost mut partial: Seq<u8> = seq![0x1bu8, 0x5bu8];
    assert(out@ =~= old(out)@ + partial);
    crate::attrs::push_dec(out, p.row as u32 + 1);
    proof {
        vstd::seq_lib::lemma_concat_associative(
            old(out)@,
            partial,
            crate::attrs::dec_digits((p.row + 1) as nat),
        );
        partial = partial + crate::attrs::dec_digits((p.row + 1) as nat);
    }
    out.push(0x3bu8);
    proof {
        vstd::seq_lib::lemma_concat_associative(old(out)@, partial, seq![0x3bu8]);
        partial = partial + seq![0x3bu8];
        assert(out@ =~= old(out)@ + partial);
    }
    crate::attrs::push_dec(out, p.col as u32 + 1);
    proof {
        vstd::seq_lib::lemma_concat_associative(
            old(out)@,
            partial,
            crate::attrs::dec_digits((p.col + 1) as nat),
        );
        partial = partial + crate::attrs::dec_digits((p.col + 1) as nat);
    }
    out.push(0x48u8);
    proof {
        vstd::seq_lib::lemma_concat_associative(old(out)@, partial, seq![0x48u8]);
        assert(out@ =~= old(out)@ + (partial + seq![0x48u8]));
        assert(partial + seq![0x48u8] == cursor_pos_bytes(p));
    }
}

/// Appends the escape positioning the cursor at the start of 1-indexed row
/// `n`.
fn push_row_pos(out: &mut Vec<u8>, n: u32)
    ensures
        final(out)@ == old(out)@ + row_pos_bytes(n as int),
{
    out.push(0x1b);
    out.push(0x5bu8);
    let ghost mut partial: Seq<u8> = seq![0x1bu8, 0x5bu8];
    assert(out@ =~= old(out)@ + partial);
    crate::attrs::push_dec(out, n);
    proof {
        vstd::seq_lib::lemma_concat_associative(
            old(out)@,
            partial,
            crate::attrs::dec_digits(n as nat),
        );
        partial = partial + crate::attrs::dec_digits(n as nat);
    }
    out.push(0x3bu8);
    out.push(0x31u8);
    out.push(0x48u8);
    proof {
        vstd::seq_lib::lemma_concat_associative(old(out)@, partial, seq![0x3bu8, 0x31u8, 0x48u8]);
        assert(out@ =~= old(out)@ + (partial + seq![0x3bu8, 0x31u8, 0x48u8]));
        assert(partial + seq![0x3bu8, 0x31u8, 0x48u8] == row_pos_bytes(n as int));
    }
}

impl Grid {
    /// Exclusive access to the cell at `pos`, when the coordinate is in
    /// range.
    pub fn cell_mut(&mut self, pos: Pos) -> (c: Option<&mut Cell>)
        ensures
            ((pos.row as int) < old(self)@.rows.len() && (pos.col as int)
                < old(self)@.rows[pos.row as int].cells.len()) ==> (c matches Some(x) && *x == old(
                self,
            )@.rows[pos.row as int].cells[pos.col as int] && final(self).rows@.len() == old(
                self,
            ).rows@.len() && final(self).rows@[pos.row as int].cells@ == old(self).rows@[pos.row as int].cells@.update(
                pos.col as int,
                *final(x),
            ) && final(self).rows@[pos.row as int].wrapped == old(
                self,
            ).rows@[pos.row as int].wrapped && (forall|k: int|
                0 <= k < old(self).rows@.len() && k != pos.row as int ==> final(self).rows@[k]
                    == old(self).rows@[k])),
            ((pos.row as int) >= old(self)@.rows.len() || (pos.col as int)
                >= old(self)@.rows[pos.row as int].cells.len()) ==> c is None && final(self).rows@
                == old(self).rows@,
            final(self).size == old(self).size,
            final(self).pos == old(self).pos,
            final(self).saved_pos == old(self).saved_pos,
            final(self).scroll_top == old(self).scroll_top,
            final(self).scroll_bottom == old(self).scroll_bottom,
            final(self).origin_mode == old(self).origin_mode,
            final(self).saved_origin_mode == old(self).saved_origin_mode,
    {
        proof {
            if (pos.row as int) < self.rows@.len() {
                crate::row::lemma_views_index(self.rows@, pos.row as int);
            }
        }
        if (pos.row as usize) < self.rows.len() {
            let r = row_at(&mut self.rows, pos.row as usize);
            if (pos.col as usize) < r.cells.len() {
                Some(&mut r.cells[pos.col as usize])
            } else {
                None
            }
        } else {
            None
        }
    }

    /// Exclusive access to the cell under the cursor. The cursor addresses
    /// a valid cell whenever the invariant holds and the column has been
    /// clamped into the grid.
    pub fn current_cell_mut(&mut self) -> (c: &mut Cell)
        requires
            old(self)@.wf(),
            old(self)@.pos.col < old(self)@.size.cols,
        ensures
            *c == old(self)@.rows[old(self)@.pos.row as int].cells[old(self)@.pos.col as int],
            final(self).rows@.len() == old(self).rows@.len(),
            final(self).rows@[old(self)@.pos.row as int].cells@ == old(self).rows@[old(self)@.pos.row as int].cells@.update(old(self)@.pos.col as int, *final(c)),
            final(self).rows@[old(self)@.pos.row as int].wrapped == old(self).rows@[old(self)@.pos.row as int].wrapped,
            forall|k: int|
                0 <= k < old(self).rows@.len() && k != old(self)@.pos.row as int ==> final(self).rows@[k] == old(self).rows@[k],
            final(self).size == old(self).size,
            final(self).pos == old(self).pos,
            final(self).saved_pos == old(self).saved_pos,
            final(self).scroll_top == old(self).scroll_top,
            final(self).scroll_bottom == old(self).scroll_bottom,
            final(self).origin_mode == old(self).origin_mode,
            final(self).saved_origin_mode == old(self).saved_origin_mode,
    {
        let pos = self.pos;
        proof {
            crate::row::lemma_views_index(old(self).rows@, pos.row as int);
        }
        let r = row_at(&mut self.rows, pos.row as usize);
        &mut r.cells[pos.col as usize]
    }

    /// The plain-text dump of the grid: each row's characters, rows joined
    /// by a line feed except after wrapped rows, trailing whitespace
    /// trimmed from the whole result.
    pub fn contents(&self) -> (r: String)
        requires
            self@.wf(),
        ensures
            r@ == spec_contents(self@),
    {
        let cols = self.size.cols;
        let n = self.rows.len();
        let mut out: Vec<u8> = Vec::new();
        let mut i: usize = 0;
        while i < n
            invariant
                i <= n,
                n == self.rows@.len(),
                self@.wf(),
                cols == self.size.cols,
                out@ == text_acc(self@.rows, cols, i as int),
                forall|k: int| 0 <= k < out@.len() ==> (#[trigger] out@[k]) < 0x80,
            decreases n - i,
        {
            let ghost st = out@;
            let mut piece = self.rows[i].contents_bytes(0, cols);
            proof {
                crate::row::lemma_views_index(self.rows@, i as int);
                assert(self.rows@[i as int]@.wf());
                assert forall|k: int| 0 <= k < piece@.len() implies (#[trigger] piece@[k])
                    < 0x80 by {
                    let cells = self.rows@[i as int]@.cells;
                    let (lo, hi) = crate::row::clip_range(cells, 0, cols);
                    assert(piece@[k] == cells.subrange(lo, hi).map_values(|c: Cell| c.ch)[k]);
                    assert(cells[lo + k].wf());
                }
            }
            let ghost pb = piece@;
            out.append(&mut piece);
            let wrapped = self.rows[i].wrapped;
            if !wrapped {
                out.push(0x0au8);
            }
            proof {
                vstd::seq_lib::lemma_concat_associative(
                    st,
                    pb,
                    if self@.rows[i as int].wrapped {
                        seq![]
                    } else {
                        seq![0x0au8]
                    },
                );
                assert(out@ =~= st + pb + (if self@.rows[i as int].wrapped {
                    seq![]
                } else {
                    seq![0x0au8]
                }));
            }
            i = i + 1;
        }
        let ghost full = out@;
        loop
            invariant
                trim_ws(out@) == trim_ws(full),
                forall|k: int| 0 <= k < out@.len() ==> (#[trigger] out@[k]) < 0x80,
            ensures
                out@ == trim_ws(full),
                forall|k: int| 0 <= k < out@.len() ==> (#[trigger] out@[k]) < 0x80,
            decreases out@.len(),
        {
            let len = out.len();
            if len == 0 {
                break;
            }
            let b = out[len - 1];
            if b == 0x20 || b == 0x0a {
                let ghost cur = out@;
                out.pop();
                proof {
                    assert(out@ =~= cur.drop_last());
                }
            } else {
                break;
            }
        }
        crate::row::ascii_to_string(out)
    }

    /// The full serialization of the grid: a byte stream that, replayed
    /// into a freshly initialized terminal interpreter, redraws the whole
    /// screen and leaves the cursor at the grid's cursor.
    pub fn contents_formatted(&self) -> (r: Vec<u8>)
        requires
            self@.wf(),
        ensures
            r@ == spec_contents_formatted(self@),
    {
        let cols = self.size.cols;
        let n = self.rows.len();
        let mut contents: Vec<u8> = Vec::new();
        contents.push(0x1b);
        contents.push(0x5bu8);
        contents.push(0x48u8);
        contents.push(0x1b);
        contents.push(0x5bu8);
        contents.push(0x4au8);
        assert(contents@ =~= fmt_prefix());
        let mut prev_attrs = Attrs::new();
        let mut fin_col: u16 = 0;
        let mut trail: u16 = 0;
        let mut i: usize = 0;
        while i < n
            invariant
                i <= n,
                n == self.rows@.len(),
                self@.wf(),
                cols == self.size.cols,
                contents@ == fmt_prefix() + fmt_acc(self@.rows, cols, i as int).bytes,
                prev_attrs == fmt_acc(self@.rows, cols, i as int).attrs,
                fin_col as int == fmt_acc(self@.rows, cols, i as int).col,
                trail as int == fmt_acc(self@.rows, cols, i as int).trail,
                trail as int <= i as int,
            decreases n - i,
        {
            let ghost st = fmt_acc(self@.rows, cols, i as int);
            proof {
                crate::row::lemma_views_index(self.rows@, i as int);
            }
            let (mut nc, na, ncol) = self.rows[i].contents_formatted(0, cols, prev_attrs);
            let nonempty = nc.len() > 0;
            if nonempty {
                fin_col = ncol;
            }
            let ghost b = nc@;
            contents.append(&mut nc);
            proof {
                vstd::seq_lib::lemma_concat_associative(fmt_prefix(), st.bytes, b);
            }
            let wrapped = self.rows[i].wrapped;
            if !wrapped {
                contents.push(0x0du8);
                contents.push(0x0au8);
                if nonempty {
                    trail = 1;
                } else {
                    trail = trail + 1;
                }
            } else {
                if nonempty {
                    trail = 0;
                }
            }
            prev_attrs = na;
            proof {
                let sep: Seq<u8> = if self@.rows[i as int].wrapped {
                    seq![]
                } else {
                    crlf()
                };
                vstd::seq_lib::lemma_concat_associative(fmt_prefix(), st.bytes + b, sep);
                assert(contents@ =~= fmt_prefix() + (st.bytes + b + sep));
                assert(b == row_fmt_bytes_of(self@.rows[i as int], cols, st.attrs));
                assert(fmt_acc(self@.rows, cols, i as int + 1).bytes == st.bytes + b + sep);
            }
            i = i + 1;
        }
        proof {
            lemma_fmt_acc_bounds(self@.rows, cols, n as int);
        }
        let strip: usize = 2 * (trail as usize);
        let keep = contents.len() - strip;
        let ghost st = fmt_acc(self@.rows, cols, n as int);
        contents.truncate(keep);
        proof {
            assert(contents@ =~= fmt_prefix() + st.bytes.take(st.bytes.len() - 2 * st.trail));
        }
        let fin_row: u16 = self.size.rows - trail;
        if !(fin_row == self.pos.row && fin_col == self.pos.col) {
            push_cursor_pos(&mut contents, self.pos);
            proof {
                vstd::seq_lib::lemma_concat_associative(
                    fmt_prefix(),
                    st.bytes.take(st.bytes.len() - 2 * st.trail),
                    cursor_pos_bytes(self@.pos),
                );
            }
        }
        contents
    }

    /// The diff serialization of the grid against `prev`: a byte stream
    /// that transforms a terminal showing `prev` into one showing this
    /// grid. A grid diffed against itself yields only the attribute reset.
    pub fn contents_diff(&self, prev: &Grid) -> (r: Vec<u8>)
        requires
            self@.wf(),
            prev@.wf(),
            prev@.size == self@.size,
        ensures
            r@ == spec_contents_diff(self@, prev@),
    {
        let cols = self.size.cols;
        let n = self.rows.len();
        let mut contents: Vec<u8> = Vec::new();
        contents.push(0x1b);
        contents.push(0x5bu8);
        contents.push(0x6du8);
        assert(contents@ =~= diff_prefix());
        let mut prev_attrs = Attrs::new();
        let mut fin_row: u16 = prev.pos.row;
        let mut fin_col: u16 = prev.pos.col;
        let mut i: usize = 0;
        while i < n
            invariant
                i <= n,
                n == self.rows@.len(),
                n == prev.rows@.len(),
                self@.wf(),
                prev@.wf(),
                prev@.size == self@.size,
                cols == self.size.cols,
                contents@ == diff_prefix() + diff_acc(
                    self@.rows,
                    prev@.rows,
                    cols,
                    i as int,
                    prev@.pos,
                ).bytes,
                prev_attrs == diff_acc(self@.rows, prev@.rows, cols, i as int, prev@.pos).attrs,
                fin_row as int == diff_acc(self@.rows, prev@.rows, cols, i as int, prev@.pos).row,
                fin_col as int == diff_acc(self@.rows, prev@.rows, cols, i as int, prev@.pos).col,
            decreases n - i,
        {
            let ghost st = diff_acc(self@.rows, prev@.rows, cols, i as int, prev@.pos);
            proof {
                crate::row::lemma_views_index(self.rows@, i as int);
                crate::row::lemma_views_index(prev.rows@, i as int);
                assert(self@.rows[i as int].cells.len() == cols);
                assert(prev@.rows[i as int].cells.len() == cols);
            }
            let (mut nc, na, ncol) = self.rows[i].contents_diff(&prev.rows[i], 0, cols, prev_attrs);
            let ghost b = nc@;
            let ghost posb: Seq<u8> = if nc@.len() > 0 {
                row_pos_bytes(i as int + 1)
            } else {
                seq![]
            };
            if nc.len() > 0 {
                push_row_pos(&mut contents, (i as u32) + 1);
                fin_row = i as u16;
                fin_col = ncol;
            }
            proof {
                vstd::seq_lib::lemma_concat_associative(diff_prefix(), st.bytes, posb);
                assert(contents@ =~= diff_prefix() + (st.bytes + posb));
            }
            contents.append(&mut nc);
            proof {
                vstd::seq_lib::lemma_concat_associative(diff_prefix(), st.bytes + posb, b);
                assert(contents@ =~= diff_prefix() + (st.bytes + posb + b));
                let cells = self@.rows[i as int].cells;
                let (lo, hi) = crate::row::clip_range(cells, 0, cols);
                let equal = crate::row::cells_equal_in(cells, prev@.rows[i as int].cells, lo, hi);
                assert(b.len() > 0 <==> !equal);
                assert(diff_acc(self@.rows, prev@.rows, cols, i as int + 1, prev@.pos).bytes
                    == st.bytes + posb + b);
            }
            prev_attrs = na;
            i = i + 1;
        }
        let ghost st = diff_acc(self@.rows, prev@.rows, cols, n as int, prev@.pos);
        if !(self.pos.row == fin_row && self.pos.col == fin_col) {
            push_cursor_pos(&mut contents, self.pos);
            proof {
                vstd::seq_lib::lemma_concat_associative(
                    diff_prefix(),
                    st.bytes,
                    cursor_pos_bytes(self@.pos),
                );
            }
        }
        contents
    }
}

/// A diff of equal row sequences contributes no bytes and leaves the
/// implied cursor where it started.
pub proof fn lemma_diff_acc_self(rows: Seq<RowView>, cols: u16, n: int, start: Pos)
    requires
        n >= 0,
    ensures
        diff_acc(rows, rows, cols, n, start).bytes == Seq::<u8>::empty(),
        diff_acc(rows, rows, cols, n, start).row == start.row as int,
        diff_acc(rows, rows, cols, n, start).col == start.col as int,
    decreases n,
{
    if n > 0 {
        lemma_diff_acc_self(rows, cols, n - 1, start);
        let st = diff_acc(rows, rows, cols, n - 1, start);
        assert(st.bytes + seq![] + seq![] =~= st.bytes);
    }
}

/// Diffing a grid against itself is a visible no-op: the stream holds only
/// the attribute reset — no row content, no repositioning.
pub proof fn lemma_contents_diff_self(g: GridView)
    requires
        g.wf(),
    ensures
        spec_contents_diff(g, g) == diff_prefix(),
{
    lemma_diff_acc_self(g.rows, g.size.cols, g.rows.len() as int, g.pos);
    let st = diff_acc(g.rows, g.rows, g.size.cols, g.rows.len() as int, g.pos);
    assert(diff_prefix() + st.bytes + seq![] =~= diff_prefix());
}

} // verus!
