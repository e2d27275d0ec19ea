//! The column-resize interaction: hover/drag affordance, width change under
//! drag with a controlled shrink rate, and per-frame width persistence.

use vstd::prelude::*;

use crate::columns::{col_wf, Column};
use crate::geom::{Vec2, MAX_COORD};
use crate::{clamp_spec, MAX_WIDTH};

verus! {

/// The most a column may shrink below its used width in one frame. Content
/// can then shrink to fit over a few frames without visually snapping.
pub const MAX_SHRINKAGE_PER_FRAME: i64 = 8;

/// The visual state of one column boundary.
#[derive(Clone, Copy, Debug, PartialEq, Eq, Structural)]
pub enum ResizeState {
    Idle,
    Hovered,
    Dragging,
}

/// The boundary's state this frame: dragging while dragged; hovered while
/// under the pointer and no other drag is in progress; idle otherwise.
pub fn resize_state(dragged: bool, hovered: bool, dragging_something_else: bool) -> (s: ResizeState)
    ensures
        s == (if dragged {
            ResizeState::Dragging
        } else if hovered && !dragging_something_else {
            ResizeState::Hovered
        } else {
            ResizeState::Idle
        }),
{
    if dragged {
        ResizeState::Dragging
    } else if hovered && !dragging_something_else {
        ResizeState::Hovered
    } else {
        ResizeState::Idle
    }
}

/// The width a drag sets: the pointer's travel applied to the current
/// width, clamped into the column's range, and held no lower than the used
/// width less [`MAX_SHRINKAGE_PER_FRAME`].
///
/// Resize-clamp law: the result always lies in `[column.min, column.max]`,
/// and never undercuts `used_width - MAX_SHRINKAGE_PER_FRAME`.
pub fn drag_new_width(
    column: &Column,
    column_width: i64,
    pointer_x: i64,
    boundary_x: i64,
    used_width: i64,
) -> (w: i64)
    requires
        col_wf(*column),
        column.min <= used_width <= column.max,
        -MAX_COORD / 4 <= column_width <= MAX_COORD / 4,
        -MAX_COORD / 4 <= pointer_x <= MAX_COORD / 4,
        -MAX_COORD / 4 <= boundary_x <= MAX_COORD / 4,
    ensures
        column.min <= w <= column.max,
        w >= used_width - MAX_SHRINKAGE_PER_FRAME,
        w == ({
            let desired = clamp_spec(
                column_width + pointer_x - boundary_x,
                column.min as int,
                column.max as int,
            );
            let floor = used_width - MAX_SHRINKAGE_PER_FRAME;
            clamp_spec(
                if desired >= floor {
                    desired
                } else {
                    floor
                },
                column.min as int,
                column.max as int,
            )
        }),
{
    let desired = crate::clamp_i64(column_width + pointer_x - boundary_x, column.min, column.max);
    let floor = used_width - MAX_SHRINKAGE_PER_FRAME;
    let held = if desired >= floor {
        desired
    } else {
        floor
    };
    crate::clamp_i64(held, column.min, column.max)
}

/// The width persisted for a column at the end of a frame: during a sizing
/// pass the measured used width wins outright (shrink to fit); otherwise the
/// stored width only ever grows to cover the content.
pub fn finalize_column_width(sizing_pass: bool, stored: i64, used_width: i64) -> (w: i64)
    ensures
        sizing_pass ==> w == used_width,
        !sizing_pass ==> w == (if stored >= used_width {
            stored
        } else {
            used_width
        }),
{
    if sizing_pass {
        used_width
    } else if stored >= used_width {
        stored
    } else {
        used_width
    }
}

/// Where a column's resize line starts, remembered per visible column.
#[derive(Clone, Copy, Debug, PartialEq, Eq, Structural)]
pub struct ColumnResizer {
    /// The scroll offset of the quadrant that recorded the line.
    pub offset: Vec2,
    /// The topmost y at which the line was seen.
    pub top: i64,
}

/// Record a column's resize line: a fresh column takes the value as given; a
/// column seen before keeps its offset and takes the higher of the two tops.
pub fn update(
    map: &mut std::collections::BTreeMap<usize, ColumnResizer>,
    key: usize,
    value: ColumnResizer,
)
    ensures
        final (map)@ == (if old(map)@.contains_key(key) {
            old(map)@.insert(
                key,
                ColumnResizer {
                    offset: old(map)@[key].offset,
                    top: (if old(map)@[key].top <= value.top {
                        old(map)@[key].top
                    } else {
                        value.top
                    }),
                },
            )
        } else {
            old(map)@.insert(key, value)
        }),
{
    broadcast use vstd::std_specs::btree::group_btree_axioms;
    broadcast use vstd::laws_cmp::group_laws_cmp;

    let existing = map.get(&key);
    match existing {
        Some(r) => {
            let merged = ColumnResizer {
                offset: r.offset,
                top: if r.top <= value.top {
                    r.top
                } else {
                    value.top
                },
            };
            map.insert(key, merged);
        },
        None => {
            map.insert(key, value);
        },
    }
}

} // verus!
