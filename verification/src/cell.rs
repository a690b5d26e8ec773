//! A single grid position: one displayable character plus its style.

use vstd::prelude::*;

use crate::attrs::{Attrs, Color};

verus! {

/// One cell of the grid: a printable ASCII character and the attributes it
/// is displayed with.
#[derive(Clone, Copy, Debug, PartialEq, Eq, Structural)]
pub struct Cell {
    pub ch: u8,
    pub attrs: Attrs,
}

impl Cell {
    /// The character is printable ASCII, so that serialized streams hold no
    /// stray control bytes.
    pub open spec fn wf(self) -> bool {
        0x20 <= self.ch <= 0x7e
    }

    /// A blank cell: a space over background color `bg`, all other
    /// attributes default.
    pub open spec fn spec_blank(bg: Color) -> Cell {
        Cell {
            ch: 0x20u8,
            attrs: Attrs {
                fgcolor: Color::Default,
                bgcolor: bg,
                bold: false,
                italic: false,
                underline: false,
                inverse: false,
            },
        }
    }

    pub fn blank(bg: Color) -> (r: Cell)
        ensures
            r == Cell::spec_blank(bg),
            r.wf(),
    {
        Cell {
            ch: 0x20u8,
            attrs: Attrs {
                fgcolor: Color::Default,
                bgcolor: bg,
                bold: false,
                italic: false,
                underline: false,
                inverse: false,
            },
        }
    }

    /// Clears the cell to a blank over background color `bg`.
    pub fn clear(&mut self, bg: Color)
        ensures
            *final(self) == Cell::spec_blank(bg),
    {
        *self = Cell::blank(bg);
    }

    /// Overwrites the cell's character and attributes.
    pub fn set(&mut self, ch: u8, attrs: Attrs)
        requires
            0x20 <= ch <= 0x7e,
        ensures
            *final(self) == (Cell { ch, attrs }),
            final(self).wf(),
    {
        self.ch = ch;
        self.attrs = attrs;
    }
}

impl Default for Cell {
    fn default() -> (r: Self)
        ensures
            r == Cell::spec_blank(Color::Default),
            r.wf(),
    {
        Cell::blank(Color::Default)
    }
}

} // verus!
