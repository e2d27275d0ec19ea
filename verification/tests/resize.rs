use std::collections::BTreeMap;

use egui_table::columns::Column;
use egui_table::resize::{
    drag_new_width, finalize_column_width, resize_state, update, ColumnResizer, ResizeState,
    MAX_SHRINKAGE_PER_FRAME,
};
use egui_table::Vec2;

#[test]
fn drag_stays_inside_the_range() {
    let column = Column::new(100).range(50, 200);
    // Dragging far right saturates at the maximum.
    assert_eq!(drag_new_width(&column, 100, 10_000, 100, 100), 200);
    // Dragging far left saturates at the minimum.
    assert_eq!(drag_new_width(&column, 100, -10_000, 100, 50), 50);
    // A small drag moves the width by the pointer's travel.
    assert_eq!(drag_new_width(&column, 100, 130, 100, 60), 130);
}

#[test]
fn drag_shrinks_at_a_bounded_rate() {
    let column = Column::new(100).range(10, 200);
    // Content is 100 wide; one frame can only shrink 8 px below that.
    let w = drag_new_width(&column, 100, 50, 100, 100);
    assert_eq!(w, 100 - MAX_SHRINKAGE_PER_FRAME);
    assert!(w >= 100 - MAX_SHRINKAGE_PER_FRAME);
}

#[test]
fn resize_affordance_states() {
    assert_eq!(resize_state(true, false, false), ResizeState::Dragging);
    assert_eq!(resize_state(true, true, true), ResizeState::Dragging);
    assert_eq!(resize_state(false, true, false), ResizeState::Hovered);
    assert_eq!(resize_state(false, true, true), ResizeState::Idle);
    assert_eq!(resize_state(false, false, false), ResizeState::Idle);
}

#[test]
fn width_persistence_grows_unless_measuring() {
    assert_eq!(finalize_column_width(false, 120, 90), 120, "never auto-shrinks");
    assert_eq!(finalize_column_width(false, 120, 150), 150, "grows to fit content");
    assert_eq!(finalize_column_width(true, 120, 90), 90, "a sizing pass shrinks to fit");
}

#[test]
fn resize_lines_keep_the_highest_top() {
    let mut lines: BTreeMap<usize, ColumnResizer> = BTreeMap::new();
    update(&mut lines, 2, ColumnResizer { offset: Vec2 { x: 1, y: 2 }, top: 40 });
    update(&mut lines, 2, ColumnResizer { offset: Vec2 { x: 9, y: 9 }, top: 25 });
    update(&mut lines, 5, ColumnResizer { offset: Vec2 { x: 3, y: 4 }, top: 60 });
    let two = lines[&2];
    assert_eq!(two.top, 25, "the smaller top wins");
    assert_eq!(two.offset, Vec2 { x: 1, y: 2 }, "the first offset is kept");
    assert_eq!(lines[&5].top, 60);
}
