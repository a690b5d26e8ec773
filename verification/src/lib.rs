//! In-memory model of a terminal's visible grid.
//!
//! The central type is [`Grid`]: a cursor state machine over an ordered
//! sequence of [`Row`]s, with a scroll region, origin mode, and the editing
//! and scrolling operations a terminal interpreter drives. A grid can be
//! serialized back into an ANSI/VT escape-sequence byte stream, either in
//! full ([`Grid::contents_formatted`]) or as a transformation from a prior
//! state ([`Grid::contents_diff`]).

mod attrs;
mod cell;
mod grid;
mod row;

pub use attrs::{Attrs, Color};
pub use cell::Cell;
pub use grid::{Grid, Pos, Size};
pub use row::Row;
