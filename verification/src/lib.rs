//! A virtualized table layout engine in integer pixel coordinates.
//!
//! The crate owns geometry, visibility and width state for a spreadsheet-like
//! table: constrained column auto-sizing, the four-quadrant split-scroll
//! compositor, the row/column visibility resolver, and the column-resize
//! rules. Rendering itself is left to a host toolkit; this crate computes
//! which cells are visible and where every rectangle goes.

use vstd::prelude::*;

pub mod columns;
pub mod demo;
pub mod geom;
pub mod offsets;
pub mod resize;
pub mod split_scroll;
pub mod table;

pub use columns::Column;
pub use demo::{PlotDemo, SplitScrollDemo};
pub use geom::{Rect, Vec2};
pub use resize::{ColumnResizer, ResizeState};
pub use split_scroll::{QuadrantLayout, SplitScroll};
pub use table::{
    partition_point, AutoSizeMode, CellInfo, ColRange, FramePlan, HeaderCellInfo, HeaderRow,
    PrefetchInfo, RegionPlan, ScrollAlign, Table, TableDelegate, TableState, UniformRowHeights,
};

verus! {

/// Upper bound on a single column width, row height or header height.
pub const MAX_WIDTH: i64 = 0x4000_0000;

/// Upper bound on the number of columns of one table.
pub const MAX_COLS: usize = 0x10000;

/// Upper bound on the number of rows of one table.
pub const MAX_ROWS: u64 = 0x2000_0000;

/// Clamp `x` into the inclusive interval `[lo, hi]` (for `lo <= hi`).
pub open spec fn clamp_spec(x: int, lo: int, hi: int) -> int {
    if x < lo {
        lo
    } else if x > hi {
        hi
    } else {
        x
    }
}

/// Clamp a width into an inclusive range.
pub fn clamp_i64(x: i64, lo: i64, hi: i64) -> (r: i64)
    requires
        lo <= hi,
    ensures
        r == clamp_spec(x as int, lo as int, hi as int),
{
    if x < lo {
        lo
    } else if x > hi {
        hi
    } else {
        x
    }
}

} // verus!
