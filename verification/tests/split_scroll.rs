use egui_table::{SplitScroll, Vec2};

fn split() -> SplitScroll {
    SplitScroll {
        scroll_enabled_x: true,
        scroll_enabled_y: true,
        fixed_size: Vec2 { x: 123, y: 37 },
        scroll_outer_size: Vec2 { x: 600, y: 400 },
        scroll_content_size: Vec2 { x: 10_000, y: 10_000 },
    }
}

#[test]
fn quadrants_partition_the_control() {
    let q = split().layout(Vec2 { x: 10, y: 20 }, Vec2 { x: 0, y: 0 });
    assert_eq!(q.rect.min, Vec2 { x: 10, y: 20 });
    assert_eq!(q.rect.max, Vec2 { x: 10 + 123 + 600, y: 20 + 37 + 400 });
    // The fixed corner, the two strips and the body tile the control.
    assert_eq!(q.left_top.max, Vec2 { x: 133, y: 57 });
    assert_eq!(q.right_top_outer.min, Vec2 { x: 133, y: 20 });
    assert_eq!(q.right_top_outer.max, Vec2 { x: 733, y: 57 });
    assert_eq!(q.left_bottom_outer.min, Vec2 { x: 10, y: 57 });
    assert_eq!(q.left_bottom_outer.max, Vec2 { x: 133, y: 457 });
    assert_eq!(q.right_bottom_outer.min, Vec2 { x: 133, y: 57 });
    assert_eq!(q.right_bottom_outer.max, q.rect.max);
}

#[test]
fn strips_share_the_body_offset() {
    let q = split().layout(Vec2 { x: 0, y: 0 }, Vec2 { x: 250, y: 90 });
    // The top strip is shifted by exactly the body's x offset, and the left
    // strip by exactly the body's y offset: no quadrant lags the body.
    assert_eq!(q.right_top_content.min.x, q.right_bottom_content.min.x);
    assert_eq!(q.left_bottom_content.min.y, q.right_bottom_content.min.y);
    assert_eq!(q.right_top_content.min.x, q.right_top_outer.min.x - 250);
    assert_eq!(q.left_bottom_content.min.y, q.left_bottom_outer.min.y - 90);
    // Content spans the full scrollable extent.
    assert_eq!(
        q.right_bottom_content.max.x - q.right_bottom_content.min.x,
        10_000
    );
}

#[test]
fn zero_sizes_degrade_to_empty_quadrants() {
    let s = SplitScroll {
        scroll_enabled_x: true,
        scroll_enabled_y: true,
        fixed_size: Vec2 { x: 0, y: 0 },
        scroll_outer_size: Vec2 { x: 0, y: 0 },
        scroll_content_size: Vec2 { x: 0, y: 0 },
    };
    let q = s.layout(Vec2 { x: 5, y: 5 }, Vec2 { x: 0, y: 0 });
    assert_eq!(q.rect.min, q.rect.max);
    assert!(q.left_top.is_empty());
    assert!(q.right_bottom_outer.is_empty());
}
