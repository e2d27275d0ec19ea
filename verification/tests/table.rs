use egui_table::columns::Column;
use egui_table::offsets::build_col_offsets;
use egui_table::table::{
    build_header_offsets, col_at_x, partition_point, scroll_target_x, scroll_target_y,
    should_auto_size, sum_min_range, visible_col_range,
};
use egui_table::{AutoSizeMode, ColRange, HeaderRow, Table, TableState, UniformRowHeights, Vec2};

#[test]
fn test_partition_point() {
    assert_eq!(partition_point(0, 17, |i| 8 <= i), 8);
    assert_eq!(partition_point(0, 17, |i| 9 <= i), 9);
    assert_eq!(partition_point(10, 17, |_| true), 10);
    assert_eq!(partition_point(10, 17, |_| false), 17);
}

fn three_columns() -> Vec<Column> {
    vec![
        Column::new(100).range(10, 500),
        Column::new(150).range(10, 500),
        Column::new(200).range(10, 500),
    ]
}

#[test]
fn column_offsets_accumulate() {
    let cols = three_columns();
    let t = build_col_offsets(&cols, 1000);
    assert_eq!(t.as_slice(), &[1000, 1100, 1250, 1450]);
}

#[test]
fn header_offsets_accumulate() {
    let headers = vec![HeaderRow::new(24), HeaderRow::new(20)];
    let t = build_header_offsets(&headers, 50);
    assert_eq!(t.as_slice(), &[50, 74, 94]);
}

#[test]
fn column_lookup_finds_the_column_under_x() {
    let cols = three_columns();
    let t = build_col_offsets(&cols, 0);
    // Boundaries at 0, 100, 250, 450.
    assert_eq!(col_at_x(&t, -5), 0);
    assert_eq!(col_at_x(&t, 0), 0);
    assert_eq!(col_at_x(&t, 99), 0);
    assert_eq!(col_at_x(&t, 100), 1);
    assert_eq!(col_at_x(&t, 249), 1);
    assert_eq!(col_at_x(&t, 250), 2);
    assert_eq!(col_at_x(&t, 10_000), 2);
}

#[test]
fn visible_columns_match_the_viewport() {
    let cols = three_columns();
    let t = build_col_offsets(&cols, 0);
    assert_eq!(visible_col_range(&t, 0, 100), (0, 1));
    assert_eq!(visible_col_range(&t, 50, 150), (0, 2));
    assert_eq!(visible_col_range(&t, 100, 450), (1, 3));
    assert_eq!(visible_col_range(&t, 20, 20), (0, 0), "empty span sees nothing");
}

#[test]
fn uniform_rows_resolve_by_division() {
    let d = UniformRowHeights { row_height: 20 };
    let table = Table::new().num_rows(100);
    // A viewport from 45 to 105 shows rows 2 through 5.
    assert_eq!(table.visible_row_range(&d, 45, 105), (2, 6));
    // Rows starting exactly at the viewport top are the first visible.
    assert_eq!(table.visible_row_range(&d, 40, 80), (2, 4));
    // Offsets at or above the top resolve to row 0.
    assert_eq!(table.visible_row_range(&d, -50, 10), (0, 1));
    // Offsets past the bottom clamp to the last row.
    assert_eq!(table.visible_row_range(&d, 5000, 5100), (99, 100));
}

#[test]
fn prefetch_covers_every_planned_cell() {
    let table = Table::new()
        .columns(vec![Column::new(100).range(10, 500); 10])
        .num_rows(1000)
        .num_sticky_cols(2)
        .id_salt(7);
    let d = UniformRowHeights { row_height: 20 };
    let plan = table.plan_frame(
        &d,
        Vec2::new(0, 0),
        Vec2::new(400, 300),
        Vec2::new(150, 60),
        false,
    );
    assert_eq!(plan.prefetch.table_id, 7);
    assert_eq!(plan.prefetch.num_sticky_columns, 2);
    assert!(!plan.body.cells.is_empty());
    assert!(!plan.left_strip.cells.is_empty());
    let (r0, r1) = plan.prefetch.visible_rows;
    let ColRange { start, end } = plan.prefetch.visible_columns;
    for cell in &plan.body.cells {
        assert!(r0 <= cell.row_nr && cell.row_nr < r1);
        assert!(start <= cell.col_nr && cell.col_nr < end);
    }
    for cell in &plan.left_strip.cells {
        assert!(r0 <= cell.row_nr && cell.row_nr < r1);
        assert!(
            cell.col_nr < plan.prefetch.num_sticky_columns
                || (start <= cell.col_nr && cell.col_nr < end)
        );
    }
}

#[test]
fn planned_cells_follow_the_scroll_offset() {
    let table = Table::new()
        .columns(vec![Column::new(100).range(10, 500); 4])
        .num_rows(50)
        .id_salt(1);
    let d = UniformRowHeights { row_height: 20 };
    let plan = table.plan_frame(&d, Vec2::new(0, 0), Vec2::new(250, 100), Vec2::new(0, 45), false);
    // Header band is 16 px (one default header row); rows start below it.
    // With scroll offset 45 the first visible row is row 2 (spans 40..60).
    let (r0, _) = plan.prefetch.visible_rows;
    assert_eq!(r0, 2);
    let first = &plan.body.cells[0];
    assert_eq!(first.row_nr, 2);
    // Its clip top is header_bottom + 40 - 45.
    assert_eq!(first.clip_rect.min.y, plan.header_bottom + 40 - 45);
}

#[test]
fn sizing_pass_plans_every_column() {
    let table = Table::new()
        .columns(vec![Column::new(100).range(10, 500); 8])
        .num_rows(10)
        .id_salt(3);
    let d = UniformRowHeights { row_height: 20 };
    let plan = table.plan_frame(&d, Vec2::new(0, 0), Vec2::new(150, 100), Vec2::new(0, 0), true);
    assert_eq!(plan.body.col_range, (0, 8), "all columns are measured");
}

#[test]
fn header_groups_span_their_columns() {
    let mut header = HeaderRow::new(24);
    header.groups = vec![ColRange { start: 0, end: 2 }, ColRange { start: 2, end: 3 }];
    let table = Table::new().columns(three_columns()).headers(vec![header]);
    let t = build_col_offsets(&table.columns, 0);
    let cells = table.plan_header_row(0, &t, 0, 24, 30);
    assert_eq!(cells.len(), 2);
    assert_eq!(cells[0].col_range, ColRange { start: 0, end: 2 });
    assert_eq!(cells[0].clip_rect.min.x, 0 - 30);
    assert_eq!(cells[0].clip_rect.max.x, 250 - 30);
    assert_eq!(cells[1].col_range, ColRange { start: 2, end: 3 });
    assert_eq!(cells[1].clip_rect.min.x, 250 - 30);
    assert_eq!(cells[1].clip_rect.max.x, 450 - 30);
}

#[test]
fn headers_without_groups_get_one_cell_per_column() {
    let table = Table::new().columns(three_columns());
    let t = build_col_offsets(&table.columns, 0);
    let cells = table.plan_header_row(0, &t, 0, 16, 0);
    assert_eq!(cells.len(), 3);
    for (k, cell) in cells.iter().enumerate() {
        assert_eq!(cell.group_index, k);
        assert_eq!(cell.col_range, ColRange { start: k, end: k + 1 });
    }
}

#[test]
fn measured_header_shrinks_to_the_group_minimum() {
    let mut columns = three_columns();
    columns[2] = columns[2].auto_size_this_frame(true);
    let mut header = HeaderRow::new(24);
    header.groups = vec![ColRange { start: 0, end: 3 }];
    let table = Table::new().columns(columns).headers(vec![header]);
    let t = build_col_offsets(&table.columns, 0);
    assert_eq!(sum_min_range(&table.columns, 0, 3), 30);
    let cells = table.plan_header_row(0, &t, 0, 24, 0);
    assert_eq!(cells[0].clip_rect.max.x, 450, "the clip keeps the full span");
    assert_eq!(cells[0].rect.max.x, 30, "the content shrinks to the minimums");
}

#[test]
fn scroll_targets_compensate_for_the_sticky_band() {
    let cols = three_columns();
    let t = build_col_offsets(&cols, 0);
    // One sticky column of width 100.
    assert_eq!(scroll_target_x(&t, 1, 1, 1, 0), (100, 250));
    // A target inside the sticky band is pulled before the scroll origin.
    assert_eq!(scroll_target_x(&t, 1, 0, 0, 0), (-100, 100));

    let d = UniformRowHeights { row_height: 20 };
    // A header band of height 50: row 4 (80..100) lies past it.
    assert_eq!(scroll_target_y(&d, 50, 4, 4, 0), (80, 100));
    // Row 1 (20..40) lies inside the band and is pulled back.
    assert_eq!(scroll_target_y(&d, 50, 1, 1, 0), (20 - 50, 40 - 50));
}

#[test]
fn widths_resolve_from_persisted_state() {
    let mut table = Table::new()
        .columns(vec![
            Column::new(100).range(10, 500),
            Column::new(100).range(10, 500).id(9),
            Column::new(100).range(10, 150),
        ])
        .num_sticky_cols(17);
    let mut state = TableState::new();
    state.col_widths.insert(0, 120); // positional id of the first column
    state.col_widths.insert(9, 80); // explicit id of the second column
    state.col_widths.insert(2, 400); // clamped into the third column's range
    table.begin_frame(&mut state, 450, true);
    let widths: Vec<i64> = table.columns.iter().map(|c| c.current).collect();
    assert_eq!(widths, [120, 80, 150]);
    assert_eq!(table.num_sticky_cols, 3, "sticky count is clamped");
    assert_eq!(state.parent_width, Some(450));
    assert!(table.columns.iter().all(|c| c.auto_size_this_frame), "first frame measures all");
}

#[test]
fn begin_frame_auto_sizes_to_the_parent() {
    let mut table = Table::new()
        .columns(vec![
            Column::new(100).range(10, 500),
            Column::new(100).range(10, 500),
        ])
        .auto_size_mode(AutoSizeMode::Always);
    let mut state = TableState::new();
    table.begin_frame(&mut state, 300, false);
    let total: i64 = table.columns.iter().map(|c| c.current).sum();
    assert_eq!(total, 300);
}

#[test]
fn auto_size_policy_reacts_to_parent_changes() {
    assert!(!should_auto_size(AutoSizeMode::Never, None, 100));
    assert!(should_auto_size(AutoSizeMode::Always, Some(100), 100));
    assert!(should_auto_size(AutoSizeMode::OnParentResize, None, 100));
    assert!(should_auto_size(AutoSizeMode::OnParentResize, Some(90), 100));
    assert!(!should_auto_size(AutoSizeMode::OnParentResize, Some(100), 100));
}

#[test]
fn table_builders() {
    let t = Table::new()
        .id_salt(11)
        .num_rows(500)
        .num_sticky_cols(1)
        .auto_size_mode(AutoSizeMode::OnParentResize)
        .scroll_to_row(42, None)
        .scroll_to_column(3, Some(egui_table::ScrollAlign::Center));
    assert_eq!(t.id_salt, 11);
    assert_eq!(t.num_rows, 500);
    assert_eq!(t.num_sticky_cols, 1);
    assert_eq!(t.auto_size_mode, AutoSizeMode::OnParentResize);
    assert_eq!(t.scroll_to_rows, Some(((42, 42), None)));
    assert_eq!(
        t.scroll_to_columns,
        Some((ColRange { start: 3, end: 3 }, Some(egui_table::ScrollAlign::Center)))
    );
}

#[test]
fn empty_tables_and_empty_viewports_see_nothing() {
    let d = UniformRowHeights { row_height: 20 };
    let table = Table::new().num_rows(0);
    assert_eq!(table.visible_row_range(&d, 0, 100), (0, 0));
    let table = Table::new().num_rows(10);
    assert_eq!(table.visible_row_range(&d, 50, 50), (0, 0));
}

#[test]
fn top_of_viewport_resolves_to_row_zero_even_for_flat_rows() {
    // Degenerate zero-height rows: every offset is 0, and a viewport starting
    // at the top still resolves to row 0.
    let d = UniformRowHeights { row_height: 0 };
    let table = Table::new().num_rows(10);
    assert_eq!(table.visible_row_range(&d, 0, 1), (0, 1));
}

#[test]
fn planned_frame_reports_its_offset_tables() {
    let table = Table::new().columns(three_columns()).num_rows(5).num_sticky_cols(1);
    let d = UniformRowHeights { row_height: 20 };
    let plan = table.plan_frame(&d, Vec2::new(7, 3), Vec2::new(300, 200), Vec2::new(0, 0), false);
    assert_eq!(plan.col_x.as_slice(), &[7, 107, 257, 457]);
    assert_eq!(plan.header_row_y.as_slice(), &[3, 19]);
    assert_eq!(plan.header_bottom, 19);
    assert_eq!(plan.sticky_width, 100);
}
