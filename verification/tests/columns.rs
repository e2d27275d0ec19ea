use egui_table::Column;

fn col(c: i64, min: i64, max: i64) -> Column {
    Column::new(c).range(min, max)
}

fn widths(columns: &[Column]) -> Vec<i64> {
    columns.iter().map(|c| c.current).collect()
}

#[test]
fn test_single_column() {
    let mut columns = vec![col(0, 100, 200)];
    Column::auto_size(&mut columns, 50);
    assert_eq!(widths(&columns), [100]);
    Column::auto_size(&mut columns, 132);
    assert_eq!(widths(&columns), [132]);
    Column::auto_size(&mut columns, 500);
    assert_eq!(widths(&columns), [200]);
}

#[test]
fn test_many_columns() {
    let mut columns = vec![col(15, 10, 20), col(25, 10, 100), col(150, 100, 200)];

    Column::auto_size(&mut columns, 190);
    assert_eq!(widths(&columns), [15, 25, 150], "They have no need to grow");

    Column::auto_size(&mut columns, 193);
    assert_eq!(widths(&columns), [16, 26, 151], "They should grow equally");

    Column::auto_size(&mut columns, 187);
    assert_eq!(widths(&columns), [14, 24, 149], "They should shrink equally");

    Column::auto_size(&mut columns, 207);
    assert_eq!(
        widths(&columns),
        [20, 31, 156],
        "They should saturate the first column, then spread equally"
    );
}

#[test]
fn auto_size_is_idempotent() {
    let mut columns = vec![col(15, 10, 20), col(25, 10, 100), col(150, 100, 200)];
    Column::auto_size(&mut columns, 207);
    let first_pass = widths(&columns);
    Column::auto_size(&mut columns, 207);
    assert_eq!(widths(&columns), first_pass);

    // Also at a saturated target.
    Column::auto_size(&mut columns, 1000);
    let saturated = widths(&columns);
    Column::auto_size(&mut columns, 1000);
    assert_eq!(widths(&columns), saturated);
}

#[test]
fn auto_size_conserves_feasible_targets() {
    let mut columns = vec![col(50, 10, 80), col(50, 20, 90), col(50, 30, 100)];
    // sum(min) = 60, sum(max) = 270; every target between is met exactly.
    for target in [60, 61, 100, 150, 200, 269, 270] {
        Column::auto_size(&mut columns, target);
        let total: i64 = columns.iter().map(|c| c.current).sum();
        assert_eq!(total, target);
        for c in &columns {
            assert!(c.min <= c.current && c.current <= c.max);
        }
    }
}

#[test]
fn auto_size_saturates_out_of_range_targets() {
    let mut columns = vec![col(50, 10, 80), col(50, 20, 90), col(50, 30, 100)];
    Column::auto_size(&mut columns, 1000);
    assert_eq!(widths(&columns), [80, 90, 100], "every column at its max");
    Column::auto_size(&mut columns, 3);
    assert_eq!(widths(&columns), [10, 20, 30], "every column at its min");
}

#[test]
fn auto_size_splits_equally_between_identical_columns() {
    let mut columns = vec![col(40, 10, 100), col(40, 10, 100), col(40, 10, 100)];
    Column::auto_size(&mut columns, 150);
    assert_eq!(widths(&columns), [50, 50, 50]);
    Column::auto_size(&mut columns, 120);
    assert_eq!(widths(&columns), [40, 40, 40]);
}

#[test]
fn auto_size_clamps_out_of_range_widths() {
    let mut columns = vec![col(500, 10, 100)];
    // 110 is feasible: the width is first clamped to 100, then shrunk.
    Column::auto_size(&mut columns, 90);
    assert_eq!(widths(&columns), [90]);
}

#[test]
fn column_builders() {
    let c = Column::new(42).range(10, 60).id(7).resizable(false).auto_size_this_frame(true);
    assert_eq!(c.current, 42);
    assert_eq!(c.min, 10);
    assert_eq!(c.max, 60);
    assert_eq!(c.id, Some(7));
    assert!(!c.resizable);
    assert!(c.auto_size_this_frame);
    assert_eq!(c.id_for(3), 7);

    let d = Column::default();
    assert_eq!(d.current, 100);
    assert_eq!(d.min, 4);
    assert!(d.resizable);
    assert_eq!(d.id_for(3), 3);
}

#[test]
fn auto_size_of_no_columns_is_a_no_op() {
    let mut columns: Vec<Column> = vec![];
    Column::auto_size(&mut columns, 500);
    assert!(columns.is_empty());
}
