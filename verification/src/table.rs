//! The table layout and virtualization engine: per-frame configuration,
//! persisted width state, and the row/column visibility resolver.
//!
//! `num_rows` counts body rows only; the sticky header rows are described
//! separately by `headers` and addressed by their own indices.

use vstd::prelude::*;

use vec1::Vec1;

use crate::columns::{col_clamped, col_wf, Column};
use crate::geom::MAX_COORD;
use crate::offsets::{offsets_wf, vec1_elems};
use crate::{clamp_spec, MAX_COLS, MAX_ROWS};

verus! {

/// When column widths are redistributed to fill the parent width.
#[derive(Clone, Copy, Debug, PartialEq, Eq, Structural)]
pub enum AutoSizeMode {
    /// Never auto-size the columns.
    Never,
    /// Auto-size the columns every frame.
    Always,
    /// Auto-size the columns when the parent's width changes.
    OnParentResize,
}

impl Default for AutoSizeMode {
    fn default() -> (m: AutoSizeMode)
        ensures
            m == AutoSizeMode::Never,
    {
        AutoSizeMode::Never
    }
}

/// Where a scroll target should land in the viewport. Absent alignment means
/// "scroll just enough to bring it into view".
#[derive(Clone, Copy, Debug, PartialEq, Eq, Structural)]
pub enum ScrollAlign {
    Start,
    Center,
    End,
}

/// A half-open range of column indices grouped under one header cell.
#[derive(Clone, Copy, Debug, PartialEq, Eq, Structural)]
pub struct ColRange {
    pub start: usize,
    pub end: usize,
}

/// One sticky header row: its height and its column groupings. An empty
/// grouping list means every column forms its own group.
#[derive(Clone, Debug)]
pub struct HeaderRow {
    pub height: i64,
    pub groups: Vec<ColRange>,
}

impl HeaderRow {
    /// A header row of the given height with no explicit groups.
    pub fn new(height: i64) -> (h: HeaderRow)
        ensures
            h.height == height,
            h.groups@.len() == 0,
    {
        HeaderRow { height, groups: Vec::new() }
    }
}

/// The state that survives across frames: resolved column widths keyed by
/// column identity, and the parent width last seen.
pub struct TableState {
    pub col_widths: std::collections::BTreeMap<u64, i64>,
    pub parent_width: Option<i64>,
}

impl TableState {
    /// Fresh state: no widths resolved, no parent width seen.
    pub fn new() -> (s: TableState)
        ensures
            s.col_widths@ == Map::<u64, i64>::empty(),
            s.parent_width is None,
    {
        TableState { col_widths: std::collections::BTreeMap::new(), parent_width: None }
    }
}

/// A table's per-frame configuration.
pub struct Table {
    /// The columns of the table.
    pub columns: Vec<Column>,
    /// Distinguishes several tables under one parent.
    pub id_salt: u64,
    /// How many leading columns do not scroll.
    pub num_sticky_cols: usize,
    /// The sticky header rows, top to bottom.
    pub headers: Vec<HeaderRow>,
    /// Number of body rows.
    pub num_rows: u64,
    /// When to redistribute the column widths.
    pub auto_size_mode: AutoSizeMode,
    /// An inclusive column range to scroll into view this frame.
    pub scroll_to_columns: Option<(ColRange, Option<ScrollAlign>)>,
    /// An inclusive row range to scroll into view this frame.
    pub scroll_to_rows: Option<((u64, u64), Option<ScrollAlign>)>,
}

impl Default for Table {
    /// A table with no columns, one 16 px header row, and zero rows.
    fn default() -> (t: Table)
        ensures
            t.columns@.len() == 0,
            t.id_salt == 0,
            t.num_sticky_cols == 0,
            t.headers@.len() == 1,
            t.headers@[0].height == 16,
            t.headers@[0].groups@.len() == 0,
            t.num_rows == 0,
            t.auto_size_mode == AutoSizeMode::Never,
            t.scroll_to_columns is None,
            t.scroll_to_rows is None,
    {
        let mut headers: Vec<HeaderRow> = Vec::new();
        headers.push(HeaderRow::new(16));
        Table {
            columns: Vec::new(),
            id_salt: 0,
            num_sticky_cols: 0,
            headers,
            num_rows: 0,
            auto_size_mode: AutoSizeMode::Never,
            scroll_to_columns: None,
            scroll_to_rows: None,
        }
    }
}

impl Table {
    /// A new table with no columns and no rows.
    pub fn new() -> (t: Table)
        ensures
            t.columns@.len() == 0,
            t.id_salt == 0,
            t.num_sticky_cols == 0,
            t.headers@.len() == 1,
            t.headers@[0].height == 16,
            t.headers@[0].groups@.len() == 0,
            t.num_rows == 0,
            t.auto_size_mode == AutoSizeMode::Never,
            t.scroll_to_columns is None,
            t.scroll_to_rows is None,
    {
        Default::default()
    }

    /// Set the salt that makes this table's identity unique in its parent.
    pub fn id_salt(self, id_salt: u64) -> (t: Table)
        ensures
            t == (Table { id_salt, ..self }),
    {
        Table { id_salt, ..self }
    }

    /// Set the number of body rows.
    pub fn num_rows(self, num_rows: u64) -> (t: Table)
        ensures
            t == (Table { num_rows, ..self }),
    {
        Table { num_rows, ..self }
    }

    /// Set the columns of the table.
    pub fn columns(self, columns: Vec<Column>) -> (t: Table)
        ensures
            t == (Table { columns, ..self }),
    {
        Table { columns, ..self }
    }

    /// Set how many leading columns stay fixed while scrolling.
    pub fn num_sticky_cols(self, num_sticky_cols: usize) -> (t: Table)
        ensures
            t == (Table { num_sticky_cols, ..self }),
    {
        Table { num_sticky_cols, ..self }
    }

    /// Set the sticky header rows.
    pub fn headers(self, headers: Vec<HeaderRow>) -> (t: Table)
        ensures
            t == (Table { headers, ..self }),
    {
        Table { headers, ..self }
    }

    /// Set when the column widths are redistributed.
    pub fn auto_size_mode(self, auto_size_mode: AutoSizeMode) -> (t: Table)
        ensures
            t == (Table { auto_size_mode, ..self }),
    {
        Table { auto_size_mode, ..self }
    }

    /// Scroll so one row comes into view this frame.
    pub fn scroll_to_row(self, row: u64, align: Option<ScrollAlign>) -> (t: Table)
        ensures
            t == (Table { scroll_to_rows: Some(((row, row), align)), ..self }),
    {
        self.scroll_to_rows(row, row, align)
    }

    /// Scroll so an inclusive range of rows comes into view this frame.
    pub fn scroll_to_rows(self, first: u64, last: u64, align: Option<ScrollAlign>) -> (t: Table)
        ensures
            t == (Table { scroll_to_rows: Some(((first, last), align)), ..self }),
    {
        Table { scroll_to_rows: Some(((first, last), align)), ..self }
    }

    /// Scroll so one column comes into view this frame.
    pub fn scroll_to_column(self, column: usize, align: Option<ScrollAlign>) -> (t: Table)
        ensures
            t == (Table {
                scroll_to_columns: Some((ColRange { start: column, end: column }, align)),
                ..self
            }),
    {
        self.scroll_to_columns(column, column, align)
    }

    /// Scroll so an inclusive range of columns comes into view this frame.
    pub fn scroll_to_columns(self, start: usize, end: usize, align: Option<ScrollAlign>) -> (t:
        Table)
        ensures
            t == (Table { scroll_to_columns: Some((ColRange { start, end }, align)), ..self }),
    {
        Table { scroll_to_columns: Some((ColRange { start, end }, align)), ..self }
    }

    /// The table's configuration stays inside the engine's limits and its
    /// header groups address existing columns.
    pub open spec fn wf(self) -> bool {
        &&& self.columns@.len() <= MAX_COLS
        &&& forall|i: int| 0 <= i < self.columns@.len() ==> col_wf(#[trigger] self.columns@[i])
        &&& self.headers@.len() <= MAX_COLS
        &&& forall|i: int|
            0 <= i < self.headers@.len() ==> 0 <= (#[trigger] self.headers@[i]).height
                <= crate::MAX_WIDTH
        &&& forall|i: int, g: int|
            0 <= i < self.headers@.len() && 0 <= g < self.headers@[i].groups@.len() ==> {
                let r = #[trigger] self.headers@[i].groups@[g];
                r.start < r.end <= self.columns@.len()
            }
        &&& self.num_rows <= MAX_ROWS
    }
}

/// The caller-supplied row geometry: where each row starts, measured from
/// the top of the body. Implementations fix `row_offset_spec` and prove it
/// zero-based, monotone and bounded; the engine's visibility resolution is
/// verified against exactly those properties.
pub trait TableDelegate {
    /// The y offset of the top of row `row_nr`, from the top of the body.
    spec fn row_offset_spec(&self, row_nr: int) -> int;

    /// The delegate's offsets are usable for layout.
    spec fn wf(&self) -> bool;

    /// Offsets start at zero, never decrease, and stay within coordinate
    /// range for every addressable row.
    proof fn wf_properties(&self)
        requires
            self.wf(),
        ensures
            self.row_offset_spec(0) == 0,
            forall|i: int, j: int|
                0 <= i <= j ==> #[trigger] self.row_offset_spec(i) <= #[trigger] self.row_offset_spec(j),
            forall|i: int| 0 <= i <= MAX_ROWS ==> 0 <= #[trigger] self.row_offset_spec(i) <= MAX_COORD / 4,
    ;

    /// Compute the offset for the top of the given row.
    fn row_top_offset(&self, row_nr: u64) -> (r: i64)
        requires
            self.wf(),
            row_nr <= MAX_ROWS,
        ensures
            r == self.row_offset_spec(row_nr as int),
    ;
}

/// Rows of one uniform height.
#[derive(Clone, Copy, Debug)]
pub struct UniformRowHeights {
    pub row_height: i64,
}

impl TableDelegate for UniformRowHeights {
    open spec fn row_offset_spec(&self, row_nr: int) -> int {
        row_nr * self.row_height
    }

    open spec fn wf(&self) -> bool {
        0 <= self.row_height <= crate::MAX_WIDTH
    }

    proof fn wf_properties(&self) {
        assert forall|i: int, j: int| 0 <= i <= j implies self.row_offset_spec(i)
            <= self.row_offset_spec(j) by {
            vstd::arithmetic::mul::lemma_mul_inequality(i, j, self.row_height as int);
        }
        assert forall|i: int| 0 <= i <= MAX_ROWS implies 0 <= #[trigger] self.row_offset_spec(i)
            <= MAX_COORD / 4 by {
            vstd::arithmetic::mul::lemma_mul_nonnegative(i, self.row_height as int);
            vstd::arithmetic::mul::lemma_mul_upper_bound(
                i,
                MAX_ROWS as int,
                self.row_height as int,
                crate::MAX_WIDTH as int,
            );
        }
    }

    fn row_top_offset(&self, row_nr: u64) -> (r: i64) {
        proof {
            vstd::arithmetic::mul::lemma_mul_nonnegative(row_nr as int, self.row_height as int);
            vstd::arithmetic::mul::lemma_mul_upper_bound(
                row_nr as int,
                MAX_ROWS as int,
                self.row_height as int,
                crate::MAX_WIDTH as int,
            );
        }
        (row_nr as i64) * self.row_height
    }
}

/// The index of the first element of the second partition, found by binary
/// search: the smallest `i` in `[min0, max0)` for which `second_partition`
/// returns true, or `max0` when it never does. The predicate must be
/// monotone: once true, true for every later index.
pub fn partition_point<F: Fn(u64) -> bool>(min0: u64, max0: u64, second_partition: F) -> (r: u64)
    requires
        min0 < max0,
        forall|i: u64| min0 <= i < max0 ==> call_requires(second_partition, (i,)),
        forall|i: u64, j: u64|
            min0 <= i <= j < max0 && call_ensures(second_partition, (i,), true) && call_ensures(
                second_partition,
                (j,),
                false,
            ) ==> false,
    ensures
        min0 <= r <= max0,
        r < max0 ==> call_ensures(second_partition, (r,), true),
        r > min0 ==> call_ensures(second_partition, (((r - 1) as u64),), false),
{
    let mut min = min0;
    let mut max = max0;
    while min < max
        invariant
            min0 <= min <= max <= max0,
            forall|i: u64| min0 <= i < max0 ==> call_requires(second_partition, (i,)),
            forall|i: u64, j: u64|
                min0 <= i <= j < max0 && call_ensures(second_partition, (i,), true) && call_ensures(
                    second_partition,
                    (j,),
                    false,
                ) ==> false,
            min > min0 ==> call_ensures(second_partition, (((min - 1) as u64),), false),
            max < max0 ==> call_ensures(second_partition, (max,), true),
        decreases max - min,
    {
        let mid = min + (max - min) / 2;
        if second_partition(mid) {
            max = mid;
        } else {
            min = mid + 1;
        }
    }
    min
}

impl Table {
    /// Which row contains the given y offset from the top of the body?
    /// Offsets at or above the top of row 0 resolve to row 0; offsets past
    /// the last row resolve to the last row.
    pub fn get_row_nr_at_y_offset<D: TableDelegate>(&self, d: &D, y_offset: i64) -> (r: u64)
        requires
            d.wf(),
            1 <= self.num_rows <= MAX_ROWS,
        ensures
            r < self.num_rows,
            y_offset <= 0 ==> r == 0,
            r == 0 || d.row_offset_spec(r as int) <= y_offset,
            y_offset > 0 && r < self.num_rows - 1 ==> y_offset < d.row_offset_spec(r as int + 1),
    {
        if y_offset <= 0 {
            return 0;
        }
        proof {
            d.wf_properties();
        }
        let pred = |row_nr: u64| -> (b: bool)
            requires
                d.wf(),
                row_nr <= MAX_ROWS,
            ensures
                b == (y_offset < d.row_offset_spec(row_nr as int)),
            {
                y_offset < d.row_top_offset(row_nr)
            };
        proof {
            assert forall|i: u64, j: u64|
                0 <= i <= j < self.num_rows && call_ensures(pred, (i,), true) && call_ensures(
                    pred,
                    (j,),
                    false,
                ) implies false by {
                assert(d.row_offset_spec(i as int) <= d.row_offset_spec(j as int));
            }
        }
        let pp = partition_point(0, self.num_rows, pred);
        if pp == 0 {
            0
        } else {
            pp - 1
        }
    }

    /// The half-open range of rows intersecting the y span `[y0, y1)` of the
    /// body, resolved through the delegate's offsets; empty input spans and
    /// zero-row tables give the empty range, and a span starting at or above
    /// the top starts at row 0.
    pub fn visible_row_range<D: TableDelegate>(&self, d: &D, y0: i64, y1: i64) -> (rr: (u64, u64))
        requires
            d.wf(),
            self.num_rows <= MAX_ROWS,
            -MAX_COORD <= y0,
            y1 <= MAX_COORD,
        ensures
            self.num_rows == 0 || y1 <= y0 ==> rr == (0u64, 0u64),
            self.num_rows > 0 && y0 < y1 ==> {
                &&& rr.0 < rr.1 <= self.num_rows
                &&& y0 <= 0 ==> rr.0 == 0
                &&& rr.0 == 0 || d.row_offset_spec(rr.0 as int) <= y0
                &&& y0 > 0 && rr.0 < self.num_rows - 1 ==> y0 < d.row_offset_spec(rr.0 as int + 1)
                &&& y1 - 1 <= 0 ==> rr.1 == 1
                &&& rr.1 == 1 || d.row_offset_spec(rr.1 as int - 1) <= y1 - 1
                &&& y1 - 1 > 0 && rr.1 < self.num_rows ==> y1 - 1 < d.row_offset_spec(rr.1 as int)
            },
    {
        if self.num_rows == 0 || y1 <= y0 {
            return (0, 0);
        }
        proof {
            d.wf_properties();
        }
        let first = self.get_row_nr_at_y_offset(d, y0);
        let last = self.get_row_nr_at_y_offset(d, y1 - 1);
        proof {
            if first > last {
                assert(d.row_offset_spec(first as int) <= y0);
                if last < self.num_rows - 1 {
                    assert(y1 - 1 < d.row_offset_spec(last as int + 1));
                    assert(d.row_offset_spec(last as int + 1) <= d.row_offset_spec(first as int));
                    assert(false);
                } else {
                    assert(false);
                }
            }
        }
        (first, last + 1)
    }
}

/// Sum of the header row heights.
pub open spec fn sum_heights(s: Seq<HeaderRow>) -> int
    decreases s.len(),
{
    if s.len() == 0 {
        0
    } else {
        sum_heights(s.drop_last()) + s.last().height
    }
}

/// Prefix sums of non-negative heights grow with the prefix length.
pub proof fn lemma_sum_heights_prefix_monotone(s: Seq<HeaderRow>, a: int, b: int)
    requires
        0 <= a <= b <= s.len(),
        forall|i: int| 0 <= i < s.len() ==> 0 <= (#[trigger] s[i]).height <= crate::MAX_WIDTH,
    ensures
        sum_heights(s.subrange(0, a)) <= sum_heights(s.subrange(0, b)),
    decreases b - a,
{
    if a < b {
        lemma_sum_heights_prefix_monotone(s, a, b - 1);
        assert(s.subrange(0, b).drop_last() =~= s.subrange(0, b - 1));
        assert(s.subrange(0, b).last() == s[b - 1]);
        assert(0 <= s[b - 1].height);
    }
}

/// Total header height is non-negative and bounded.
pub proof fn lemma_sum_heights_bound(s: Seq<HeaderRow>)
    requires
        forall|i: int| 0 <= i < s.len() ==> 0 <= (#[trigger] s[i]).height <= crate::MAX_WIDTH,
    ensures
        0 <= sum_heights(s) <= s.len() * crate::MAX_WIDTH,
    decreases s.len(),
{
    if s.len() > 0 {
        let t = s.drop_last();
        assert(forall|i: int| 0 <= i < t.len() ==> 0 <= (#[trigger] t[i]).height
            <= crate::MAX_WIDTH);
        lemma_sum_heights_bound(t);
        assert((s.len() - 1) * crate::MAX_WIDTH + crate::MAX_WIDTH == s.len() * crate::MAX_WIDTH)
            by (nonlinear_arith);
    }
}

/// Build the cumulative y-offset table of the header rows: entry `0` is
/// `origin`, and entry `i + 1` adds header row `i`'s height onto entry `i`.
pub fn build_header_offsets(headers: &Vec<HeaderRow>, origin: i64) -> (t: Vec1<i64>)
    requires
        headers@.len() <= MAX_COLS,
        forall|i: int| 0 <= i < headers@.len() ==> 0 <= (#[trigger] headers@[i]).height
            <= crate::MAX_WIDTH,
        -MAX_COORD / 2 <= origin <= MAX_COORD / 2,
    ensures
        vec1_elems(&t).len() == headers@.len() + 1,
        forall|i: int|
            0 <= i <= headers@.len() ==> #[trigger] vec1_elems(&t)[i] == origin + sum_heights(
                headers@.subrange(0, i),
            ),
        offsets_wf(&t),
{
    let n = headers.len();
    let mut t = crate::offsets::vec1_with_capacity(origin, n + 1);
    let mut y = origin;
    let mut i: usize = 0;
    proof {
        assert(headers@.subrange(0, 0) =~= Seq::<HeaderRow>::empty());
    }
    while i < n
        invariant
            n == headers@.len(),
            n <= MAX_COLS,
            forall|j: int| 0 <= j < n ==> 0 <= (#[trigger] headers@[j]).height <= crate::MAX_WIDTH,
            -MAX_COORD / 2 <= origin <= MAX_COORD / 2,
            i <= n,
            vec1_elems(&t).len() == i + 1,
            forall|j: int|
                0 <= j <= i ==> #[trigger] vec1_elems(&t)[j] == origin + sum_heights(
                    headers@.subrange(0, j),
                ),
            y as int == origin + sum_heights(headers@.subrange(0, i as int)),
            origin <= y,
            y as int <= origin + (i as int) * crate::MAX_WIDTH,
        decreases n - i,
    {
        let h = headers[i].height;
        proof {
            assert(0 <= headers@[i as int].height <= crate::MAX_WIDTH);
            assert(headers@.subrange(0, i as int + 1).drop_last() =~= headers@.subrange(
                0,
                i as int,
            ));
            assert(headers@.subrange(0, i as int + 1).last() == headers@[i as int]);
            assert((i as int) * crate::MAX_WIDTH + crate::MAX_WIDTH == (i as int + 1)
                * crate::MAX_WIDTH) by (nonlinear_arith);
            assert((i as int) * crate::MAX_WIDTH >= 0) by (nonlinear_arith)
                requires
                    i >= 0,
            ;
            assert((i as int + 1) * crate::MAX_WIDTH <= (MAX_COLS as int) * crate::MAX_WIDTH)
                by (nonlinear_arith)
                requires
                    i as int + 1 <= MAX_COLS as int,
            ;
            assert((MAX_COLS as int) * crate::MAX_WIDTH + MAX_COORD / 2 < MAX_COORD);
        }
        y = y + h;
        crate::offsets::vec1_push(&mut t, y);
        i = i + 1;
    }
    proof {
        assert forall|a: int, b: int|
            0 <= a <= b < vec1_elems(&t).len() implies #[trigger] vec1_elems(&t)[a]
            <= #[trigger] vec1_elems(&t)[b] by {
            lemma_sum_heights_prefix_monotone(headers@, a, b);
        }
        assert forall|a: int| 0 <= a < vec1_elems(&t).len() implies -MAX_COORD
            <= #[trigger] vec1_elems(&t)[a] <= MAX_COORD by {
            lemma_sum_heights_prefix_monotone(headers@, 0, a);
            lemma_sum_heights_prefix_monotone(headers@, a, headers@.len() as int);
            assert(vec1_elems(&t)[0] == origin + sum_heights(headers@.subrange(0, 0)));
            assert(headers@.subrange(0, 0) =~= Seq::<HeaderRow>::empty());
            assert(vec1_elems(&t)[headers@.len() as int] == origin + sum_heights(
                headers@.subrange(0, headers@.len() as int),
            ));
            assert(y as int <= origin + (headers@.len() as int) * crate::MAX_WIDTH);
            assert(headers@.subrange(0, headers@.len() as int) =~= headers@);
        }
    }
    t
}

/// Which column contains the given x coordinate? The one whose span
/// `[col_x[c], col_x[c+1])` holds `x`, clamped to the first and last column.
pub fn col_at_x(col_x: &Vec1<i64>, x: i64) -> (c: usize)
    requires
        offsets_wf(col_x),
        2 <= vec1_elems(col_x).len() <= MAX_COLS + 1,
    ensures
        c < vec1_elems(col_x).len() - 1,
        c == 0 || vec1_elems(col_x)[c as int] <= x,
        c < vec1_elems(col_x).len() - 2 ==> x < vec1_elems(col_x)[c as int + 1],
{
    let entries = crate::offsets::vec1_len(col_x);
    let pred = |e: u64| -> (b: bool)
        requires
            offsets_wf(col_x),
            e < vec1_elems(col_x).len(),
        ensures
            b == (x < vec1_elems(col_x)[e as int]),
        {
            x < crate::offsets::vec1_get(col_x, e as usize)
        };
    proof {
        assert forall|i: u64, j: u64|
            0 <= i <= j < entries && call_ensures(pred, (i,), true) && call_ensures(
                pred,
                (j,),
                false,
            ) implies false by {
            assert(vec1_elems(col_x)[i as int] <= vec1_elems(col_x)[j as int]);
        }
    }
    let pp = partition_point(0, entries as u64, pred);
    let c0: usize = if pp == 0 {
        0
    } else {
        (pp - 1) as usize
    };
    if c0 > entries - 2 {
        entries - 2
    } else {
        c0
    }
}

/// The half-open range of columns intersecting the x span `[x0, x1)` of the
/// table, given the cumulative column offsets; empty spans and tables with
/// no columns give the empty range.
pub fn visible_col_range(col_x: &Vec1<i64>, x0: i64, x1: i64) -> (cr: (usize, usize))
    requires
        offsets_wf(col_x),
        1 <= vec1_elems(col_x).len() <= MAX_COLS + 1,
    ensures
        cr.1 <= vec1_elems(col_x).len() - 1,
        vec1_elems(col_x).len() == 1 || x1 <= x0 ==> cr == (0usize, 0usize),
        vec1_elems(col_x).len() > 1 && x0 < x1 ==> {
            let t = vec1_elems(col_x);
            let n = t.len() - 1;
            &&& cr.0 < cr.1 <= n
            &&& (cr.0 == 0 || t[cr.0 as int] <= x0)
            &&& (cr.0 < n - 1 ==> x0 < t[cr.0 as int + 1])
            &&& (cr.1 == 1 || t[cr.1 as int - 1] <= x1 - 1)
            &&& (cr.1 < n ==> x1 - 1 < t[cr.1 as int])
        },
{
    let entries = crate::offsets::vec1_len(col_x);
    if entries == 1 || x1 <= x0 {
        return (0, 0);
    }
    let first = col_at_x(col_x, x0);
    let last = col_at_x(col_x, x1 - 1);
    proof {
        let t = vec1_elems(col_x);
        if first > last {
            assert(t[first as int] <= x0);
            if last < t.len() - 2 {
                assert(x1 - 1 < t[last as int + 1]);
                assert(t[last as int + 1] <= t[first as int]);
                assert(false);
            } else {
                assert(false);
            }
        }
    }
    (first, last + 1)
}

/// Uniform-height resolution law: with rows of one positive height `h`, the
/// row resolved for a y offset `y` is `y / h` clamped to the table — row `0`
/// for anything at or above the top, the last row for anything below the
/// bottom.
pub proof fn lemma_uniform_row_resolution(h: int, num_rows: int, y: int, r: int)
    requires
        1 <= h,
        1 <= num_rows,
        0 <= r < num_rows,
        r == 0 || r * h <= y,
        r < num_rows - 1 ==> y < (r + 1) * h,
    ensures
        y < 0 ==> r == 0,
        0 <= y && y / h <= num_rows - 1 ==> r == y / h,
        0 <= y && y / h > num_rows - 1 ==> r == num_rows - 1,
{
    if y < 0 {
        if r > 0 {
            assert(r * h >= 0) by (nonlinear_arith)
                requires
                    r >= 0,
                    h >= 0,
            ;
            assert(false);
        }
    } else {
        vstd::arithmetic::div_mod::lemma_fundamental_div_mod(y, h);
        vstd::arithmetic::div_mod::lemma_mod_division_less_than_divisor(y, h);
        vstd::arithmetic::div_mod::lemma_div_pos_is_pos(y, h);
        if r < num_rows - 1 {
            if r == 0 {
                assert(y / h == 0) by (nonlinear_arith)
                    requires
                        y == h * (y / h) + y % h,
                        0 <= y % h < h,
                        y < (0 + 1) * h,
                        y / h >= 0,
                ;
            } else {
                assert(r == y / h) by (nonlinear_arith)
                    requires
                        y == h * (y / h) + y % h,
                        0 <= y % h < h,
                        r * h <= y,
                        1 <= r,
                        y < (r + 1) * h,
                        h >= 1,
                        y / h >= 0,
                ;
            }
        } else {
            if r > 0 {
                assert(y / h >= r) by (nonlinear_arith)
                    requires
                        y == h * (y / h) + y % h,
                        0 <= y % h < h,
                        r * h <= y,
                        h >= 1,
                ;
            }
        }
    }
}

/// The range of visible rows and columns handed to the caller before any
/// cell is rendered, so data can be fetched lazily.
#[derive(Clone, Copy, Debug)]
pub struct PrefetchInfo {
    /// The sticky columns, always visible.
    pub num_sticky_columns: usize,
    /// The columns visible this frame, besides the sticky ones.
    pub visible_columns: ColRange,
    /// The rows visible this frame, as a half-open range.
    pub visible_rows: (u64, u64),
    /// The table's identity.
    pub table_id: u64,
}

/// Identifies one body cell for the caller's renderer.
#[derive(Clone, Copy, Debug)]
pub struct CellInfo {
    pub col_nr: usize,
    pub row_nr: u64,
    /// The table's identity.
    pub table_id: u64,
}

/// Identifies one header group cell for the caller's renderer.
#[derive(Clone, Copy, Debug)]
pub struct HeaderCellInfo {
    pub group_index: usize,
    pub col_range: ColRange,
    /// Which header row, top to bottom.
    pub row_nr: usize,
    /// The table's identity.
    pub table_id: u64,
}

/// One visible body cell: its indices, the rectangle its content is laid out
/// in, and the rectangle it is clipped to. The two differ only for a column
/// being measured, whose content rect shrinks to the column's lower bound
/// while the clip stays put.
#[derive(Clone, Copy, Debug)]
pub struct CellPlacement {
    pub row_nr: u64,
    pub col_nr: usize,
    pub rect: crate::geom::Rect,
    pub clip_rect: crate::geom::Rect,
}

/// The body cells of one scroll region for one frame: the resolved ranges
/// and one placement per (row, column) pair, rows outermost.
pub struct RegionPlan {
    pub col_range: (usize, usize),
    pub row_range: (u64, u64),
    pub cells: Vec<CellPlacement>,
}

/// The clip rectangle of the cell at (`row`, `col`).
pub open spec fn cell_clip_spec<D: TableDelegate>(
    d: &D,
    t: Seq<i64>,
    header_bottom: int,
    offset: crate::geom::Vec2,
    row: int,
    col: int,
) -> crate::geom::Rect {
    crate::geom::Rect {
        min: crate::geom::Vec2 {
            x: (t[col] - offset.x) as i64,
            y: (header_bottom + d.row_offset_spec(row) - offset.y) as i64,
        },
        max: crate::geom::Vec2 {
            x: (t[col + 1] - offset.x) as i64,
            y: (header_bottom + d.row_offset_spec(row + 1) - offset.y) as i64,
        },
    }
}

/// Lay out one cell placement per (row, column) pair of the given ranges,
/// rows outermost. Cell `k` covers row `row_range.0 + k / ncols` and column
/// `col_range.0 + k % ncols`; its clip spans the column's x band and the
/// row's y band, shifted by the scroll offset, and its content rect shrinks
/// to the column's lower width bound while the column is being measured.
pub fn enumerate_cells<D: TableDelegate>(
    d: &D,
    columns: &Vec<Column>,
    col_x: &Vec1<i64>,
    header_bottom: i64,
    offset: crate::geom::Vec2,
    row_range: (u64, u64),
    col_range: (usize, usize),
) -> (cells: Vec<CellPlacement>)
    requires
        d.wf(),
        columns@.len() <= MAX_COLS,
        forall|i: int|
            0 <= i < columns@.len() ==> col_wf(#[trigger] columns@[i]) && col_clamped(
                columns@[i],
            ),
        vec1_elems(col_x).len() == columns@.len() + 1,
        offsets_wf(col_x),
        col_range.0 <= col_range.1 <= columns@.len(),
        row_range.0 <= row_range.1 <= MAX_ROWS,
        -MAX_COORD / 2 <= header_bottom <= MAX_COORD / 2,
        0 <= offset.x <= MAX_COORD / 4,
        0 <= offset.y <= MAX_COORD / 4,
    ensures
        cells@.len() == (row_range.1 - row_range.0) * (col_range.1 - col_range.0),
        forall|k: int|
            0 <= k < cells@.len() ==> {
                let ncols = col_range.1 - col_range.0;
                let row = row_range.0 + k / ncols;
                let col = col_range.0 + k % ncols;
                let clip = cell_clip_spec(
                    d,
                    vec1_elems(col_x),
                    header_bottom as int,
                    offset,
                    row as int,
                    col as int,
                );
                &&& (#[trigger] cells@[k]).row_nr == row
                &&& cells@[k].col_nr == col
                &&& row_range.0 <= cells@[k].row_nr < row_range.1
                &&& col_range.0 <= cells@[k].col_nr < col_range.1
                &&& cells@[k].clip_rect == clip
                &&& cells@[k].rect == (if columns@[col as int].auto_size_this_frame {
                    crate::geom::Rect {
                        max: crate::geom::Vec2 {
                            x: (clip.min.x + columns@[col as int].min) as i64,
                            ..clip.max
                        },
                        ..clip
                    }
                } else {
                    clip
                })
            },
{
    let ncols = col_range.1 - col_range.0;
    let mut cells: Vec<CellPlacement> = Vec::new();
    if ncols == 0 {
        proof {
            assert(cells@.len() == (row_range.1 - row_range.0) * 0) by (nonlinear_arith)
                requires
                    cells@.len() == 0,
            ;
        }
        return cells;
    }
    proof {
        d.wf_properties();
    }
    let mut r = row_range.0;
    while r < row_range.1
        invariant
            d.wf(),
            columns@.len() <= MAX_COLS,
            forall|i: int|
                0 <= i < columns@.len() ==> col_wf(#[trigger] columns@[i]) && col_clamped(
                    columns@[i],
                ),
            vec1_elems(col_x).len() == columns@.len() + 1,
            offsets_wf(col_x),
            col_range.0 <= col_range.1 <= columns@.len(),
            row_range.0 <= row_range.1 <= MAX_ROWS,
            -MAX_COORD / 2 <= header_bottom <= MAX_COORD / 2,
            0 <= offset.x <= MAX_COORD / 4,
            0 <= offset.y <= MAX_COORD / 4,
            ncols == col_range.1 - col_range.0,
            ncols >= 1,
            row_range.0 <= r <= row_range.1,
            cells@.len() == (r - row_range.0) * ncols,
            forall|k: int|
                0 <= k < cells@.len() ==> {
                    let row = row_range.0 + k / (ncols as int);
                    let col = col_range.0 + k % (ncols as int);
                    let clip = cell_clip_spec(
                        d,
                        vec1_elems(col_x),
                        header_bottom as int,
                        offset,
                        row as int,
                        col as int,
                    );
                    &&& (#[trigger] cells@[k]).row_nr == row
                    &&& cells@[k].col_nr == col
                    &&& row_range.0 <= cells@[k].row_nr < row_range.1
                    &&& col_range.0 <= cells@[k].col_nr < col_range.1
                    &&& cells@[k].clip_rect == clip
                    &&& cells@[k].rect == (if columns@[col as int].auto_size_this_frame {
                        crate::geom::Rect {
                            max: crate::geom::Vec2 {
                                x: (clip.min.x + columns@[col as int].min) as i64,
                                ..clip.max
                            },
                            ..clip
                        }
                    } else {
                        clip
                    })
                },
        decreases row_range.1 - r,
    {
        proof {
            d.wf_properties();
        }
        let y_top = header_bottom + d.row_top_offset(r) - offset.y;
        let y_bot = header_bottom + d.row_top_offset(r + 1) - offset.y;
        let mut c = col_range.0;
        while c < col_range.1
            invariant
                d.wf(),
                columns@.len() <= MAX_COLS,
                forall|i: int|
                    0 <= i < columns@.len() ==> col_wf(#[trigger] columns@[i]) && col_clamped(
                        columns@[i],
                    ),
                vec1_elems(col_x).len() == columns@.len() + 1,
                offsets_wf(col_x),
                col_range.0 <= col_range.1 <= columns@.len(),
                row_range.0 <= r < row_range.1 <= MAX_ROWS,
                -MAX_COORD / 2 <= header_bottom <= MAX_COORD / 2,
                0 <= offset.x <= MAX_COORD / 4,
                0 <= offset.y <= MAX_COORD / 4,
                ncols == col_range.1 - col_range.0,
                ncols >= 1,
                col_range.0 <= c <= col_range.1,
                y_top == header_bottom + d.row_offset_spec(r as int) - offset.y,
                y_bot == header_bottom + d.row_offset_spec(r as int + 1) - offset.y,
                cells@.len() == (r - row_range.0) * ncols + (c - col_range.0),
                forall|k: int|
                    0 <= k < cells@.len() ==> {
                        let row = row_range.0 + k / (ncols as int);
                        let col = col_range.0 + k % (ncols as int);
                        let clip = cell_clip_spec(
                            d,
                            vec1_elems(col_x),
                            header_bottom as int,
                            offset,
                            row as int,
                            col as int,
                        );
                        &&& (#[trigger] cells@[k]).row_nr == row
                        &&& cells@[k].col_nr == col
                        &&& row_range.0 <= cells@[k].row_nr < row_range.1
                        &&& col_range.0 <= cells@[k].col_nr < col_range.1
                        &&& cells@[k].clip_rect == clip
                        &&& cells@[k].rect == (if columns@[col as int].auto_size_this_frame {
                            crate::geom::Rect {
                                max: crate::geom::Vec2 {
                                    x: (clip.min.x + columns@[col as int].min) as i64,
                                    ..clip.max
                                },
                                ..clip
                            }
                        } else {
                            clip
                        })
                    },
            decreases col_range.1 - c,
        {
            proof {
                assert((r - row_range.0) as int * (ncols as int) + (c - col_range.0) < (MAX_ROWS
                    as int) * (MAX_COLS as int) + MAX_COLS) by (nonlinear_arith)
                    requires
                        0 <= ((r - row_range.0) as int) && ((r - row_range.0) as int) < (MAX_ROWS as int),
                        0 <= ((c - col_range.0) as int) && ((c - col_range.0) as int) < (MAX_COLS as int),
                        1 <= (ncols as int) && (ncols as int) <= (MAX_COLS as int),
                ;
            }
            let column = columns[c];
            let clip = crate::geom::Rect {
                min: crate::geom::Vec2 { x: crate::offsets::vec1_get(col_x, c) - offset.x, y: y_top },
                max: crate::geom::Vec2 {
                    x: crate::offsets::vec1_get(col_x, c + 1) - offset.x,
                    y: y_bot,
                },
            };
            let rect = if column.auto_size_this_frame {
                crate::geom::Rect {
                    max: crate::geom::Vec2 { x: clip.min.x + column.min, ..clip.max },
                    ..clip
                }
            } else {
                clip
            };
            let ghost k = cells@.len() as int;
            cells.push(CellPlacement { row_nr: r, col_nr: c, rect, clip_rect: clip });
            proof {
                vstd::arithmetic::div_mod::lemma_fundamental_div_mod_converse(
                    k,
                    ncols as int,
                    (r - row_range.0) as int,
                    (c - col_range.0) as int,
                );
            }
            c = c + 1;
        }
        proof {
            assert((r - row_range.0) as int * (ncols as int) + ncols as int == ((r + 1)
                - row_range.0) as int * (ncols as int)) by (nonlinear_arith)
                requires
                    row_range.0 <= r < row_range.1,
            ;
        }
        r = r + 1;
    }
    proof {
        assert(cells@.len() == (row_range.1 - row_range.0) * (ncols as int));
    }
    cells
}

/// Everything the scroll regions need for one frame: the quadrant geometry,
/// the prefetch notice, and the cell plans of the fully scrolling body and
/// the sticky-column strip. The prefetch notice is computed before — and
/// covers — every planned cell.
pub struct FramePlan {
    pub quadrants: crate::split_scroll::QuadrantLayout,
    pub prefetch: PrefetchInfo,
    /// Cells of the fully scrolling body (the right-bottom quadrant).
    pub body: RegionPlan,
    /// Cells of the vertically scrolling sticky-column strip (left-bottom).
    pub left_strip: RegionPlan,
    /// The cumulative column x-offsets the frame was planned with.
    pub col_x: Vec1<i64>,
    /// The cumulative header-row y-offsets the frame was planned with.
    pub header_row_y: Vec1<i64>,
    /// Where the body content starts: bottom of the header band.
    pub header_bottom: i64,
    /// Total width of the sticky columns.
    pub sticky_width: i64,
}

impl Table {
    /// The split-scroll compositor a frame of this table fills an
    /// `avail_size` area with: the sticky columns and the header band are
    /// the fixed sides, the rest of the area scrolls over the remaining
    /// column extent and the full row extent.
    pub open spec fn split_spec<D: TableDelegate>(
        &self,
        d: &D,
        avail_size: crate::geom::Vec2,
    ) -> crate::split_scroll::SplitScroll {
        let sticky_w = crate::columns::sum_cur(
            self.columns@.subrange(0, self.num_sticky_cols as int),
        );
        let header_h = sum_heights(self.headers@);
        let outer_w: int = if avail_size.x - sticky_w >= 0 {
            avail_size.x - sticky_w
        } else {
            0
        };
        let outer_h: int = if avail_size.y - header_h >= 0 {
            avail_size.y - header_h
        } else {
            0
        };
        crate::split_scroll::SplitScroll {
            scroll_enabled_x: true,
            scroll_enabled_y: true,
            fixed_size: crate::geom::Vec2 { x: sticky_w as i64, y: header_h as i64 },
            scroll_outer_size: crate::geom::Vec2 { x: outer_w as i64, y: outer_h as i64 },
            scroll_content_size: crate::geom::Vec2 {
                x: (crate::columns::sum_cur(self.columns@) - sticky_w) as i64,
                y: d.row_offset_spec(self.num_rows as int) as i64,
            },
        }
    }

    /// Plan one frame: build the offset tables, lay out the quadrants, and
    /// resolve which cells each scrolling region shows. The contract pins
    /// the whole plan: the offset tables, the band scalars, the quadrant
    /// geometry, the visible ranges of both scroll regions, and every cell
    /// placement.
    ///
    /// Prefetch-before-render law: every (row, column) pair planned for the
    /// body or for the sticky strip lies within the ranges of the returned
    /// prefetch notice — its rows within `visible_rows`, its column within
    /// `visible_columns` or among the sticky columns. Rows are always
    /// resolved from the viewport, a sizing pass included: only the column
    /// range widens to all columns then.
    #[verifier::rlimit(60)]
    pub fn plan_frame<D: TableDelegate>(
        &self,
        d: &D,
        origin: crate::geom::Vec2,
        avail_size: crate::geom::Vec2,
        scroll_offset: crate::geom::Vec2,
        full_sizing: bool,
    ) -> (plan: FramePlan)
        requires
            self.wf(),
            d.wf(),
            forall|i: int| 0 <= i < self.columns@.len() ==> col_clamped(
                #[trigger] self.columns@[i],
            ),
            self.num_sticky_cols <= self.columns@.len(),
            -MAX_COORD / 8 <= origin.x <= MAX_COORD / 8,
            -MAX_COORD / 8 <= origin.y <= MAX_COORD / 8,
            0 <= avail_size.x <= MAX_COORD / 8,
            0 <= avail_size.y <= MAX_COORD / 8,
            0 <= scroll_offset.x <= MAX_COORD / 8,
            0 <= scroll_offset.y <= MAX_COORD / 8,
        ensures
            plan.prefetch.num_sticky_columns == self.num_sticky_cols,
            plan.prefetch.table_id == self.id_salt,
            plan.prefetch.visible_rows == plan.body.row_range,
            plan.prefetch.visible_columns == (ColRange {
                start: plan.body.col_range.0,
                end: plan.body.col_range.1,
            }),
            plan.left_strip.row_range == plan.body.row_range,
            plan.body.row_range.1 <= self.num_rows,
            plan.body.col_range.1 <= self.columns@.len(),
            full_sizing && self.columns@.len() > 0 ==> plan.body.col_range == (
                0usize,
                self.columns@.len() as usize,
            ),
            forall|k: int|
                0 <= k < plan.body.cells@.len() ==> {
                    let cell = #[trigger] plan.body.cells@[k];
                    &&& plan.prefetch.visible_rows.0 <= cell.row_nr < plan.prefetch.visible_rows.1
                    &&& plan.prefetch.visible_columns.start <= cell.col_nr
                        < plan.prefetch.visible_columns.end
                },
            forall|k: int|
                0 <= k < plan.left_strip.cells@.len() ==> {
                    let cell = #[trigger] plan.left_strip.cells@[k];
                    &&& plan.prefetch.visible_rows.0 <= cell.row_nr < plan.prefetch.visible_rows.1
                    &&& (cell.col_nr < plan.prefetch.num_sticky_columns || (
                    plan.prefetch.visible_columns.start <= cell.col_nr
                        < plan.prefetch.visible_columns.end))
                },
            vec1_elems(&plan.col_x).len() == self.columns@.len() + 1,
            forall|c: int|
                0 <= c <= self.columns@.len() ==> #[trigger] vec1_elems(&plan.col_x)[c]
                    == origin.x + crate::columns::sum_cur(self.columns@.subrange(0, c)),
            offsets_wf(&plan.col_x),
            vec1_elems(&plan.header_row_y).len() == self.headers@.len() + 1,
            forall|h: int|
                0 <= h <= self.headers@.len() ==> #[trigger] vec1_elems(&plan.header_row_y)[h]
                    == origin.y + sum_heights(self.headers@.subrange(0, h)),
            offsets_wf(&plan.header_row_y),
            plan.header_bottom == origin.y + sum_heights(self.headers@),
            plan.sticky_width == crate::columns::sum_cur(
                self.columns@.subrange(0, self.num_sticky_cols as int),
            ),
            plan.quadrants == self.split_spec(d, avail_size).layout_spec(origin, scroll_offset),
            ({
                let y0 = scroll_offset.y as int;
                let y1 = y0 + self.split_spec(d, avail_size).scroll_outer_size.y;
                &&& (self.num_rows == 0 || y1 <= y0 ==> plan.body.row_range == (0u64, 0u64))
                &&& (self.num_rows > 0 && y0 < y1 ==> {
                    let rr = plan.body.row_range;
                    &&& rr.0 < rr.1 <= self.num_rows
                    &&& (y0 <= 0 ==> rr.0 == 0)
                    &&& (rr.0 == 0 || d.row_offset_spec(rr.0 as int) <= y0)
                    &&& (y0 > 0 && rr.0 < self.num_rows - 1 ==> y0 < d.row_offset_spec(
                        rr.0 as int + 1,
                    ))
                    &&& (y1 - 1 <= 0 ==> rr.1 == 1)
                    &&& (rr.1 == 1 || d.row_offset_spec(rr.1 as int - 1) <= y1 - 1)
                    &&& (y1 - 1 > 0 && rr.1 < self.num_rows ==> y1 - 1 < d.row_offset_spec(
                        rr.1 as int,
                    ))
                })
            }),
            !(full_sizing && self.columns@.len() > 0) ==> ({
                let t = vec1_elems(&plan.col_x);
                let n = self.columns@.len() as int;
                let x0 = origin.x + plan.sticky_width + scroll_offset.x;
                let x1 = x0 + self.split_spec(d, avail_size).scroll_outer_size.x;
                let cr = plan.body.col_range;
                &&& (n == 0 || x1 <= x0 ==> cr == (0usize, 0usize))
                &&& (n > 0 && x0 < x1 ==> {
                    &&& cr.0 < cr.1 <= n
                    &&& (cr.0 == 0 || t[cr.0 as int] <= x0)
                    &&& (cr.0 < n - 1 ==> x0 < t[cr.0 as int + 1])
                    &&& (cr.1 == 1 || t[cr.1 as int - 1] <= x1 - 1)
                    &&& (cr.1 < n ==> x1 - 1 < t[cr.1 as int])
                })
            }),
            full_sizing && self.columns@.len() > 0 ==> plan.left_strip.col_range == (
                0usize,
                self.columns@.len() as usize,
            ),
            !(full_sizing && self.columns@.len() > 0) ==> ({
                let t = vec1_elems(&plan.col_x);
                let n = self.columns@.len() as int;
                let x0 = origin.x as int;
                let x1 = origin.x + plan.sticky_width;
                let cr = plan.left_strip.col_range;
                &&& (n == 0 || x1 <= x0 ==> cr == (0usize, 0usize))
                &&& (n > 0 && x0 < x1 ==> {
                    &&& cr.0 < cr.1 <= n
                    &&& (cr.0 == 0 || t[cr.0 as int] <= x0)
                    &&& (cr.0 < n - 1 ==> x0 < t[cr.0 as int + 1])
                    &&& (cr.1 == 1 || t[cr.1 as int - 1] <= x1 - 1)
                    &&& (cr.1 < n ==> x1 - 1 < t[cr.1 as int])
                })
            }),
            plan.body.cells@.len() == (plan.body.row_range.1 - plan.body.row_range.0) * (
            plan.body.col_range.1 - plan.body.col_range.0),
            forall|k: int|
                0 <= k < plan.body.cells@.len() ==> {
                    let rr = plan.body.row_range;
                    let cr = plan.body.col_range;
                    let ncols = cr.1 - cr.0;
                    let row = rr.0 + k / ncols;
                    let col = cr.0 + k % ncols;
                    let clip = cell_clip_spec(
                        d,
                        vec1_elems(&plan.col_x),
                        plan.header_bottom as int,
                        scroll_offset,
                        row as int,
                        col as int,
                    );
                    &&& (#[trigger] plan.body.cells@[k]).row_nr == row
                    &&& plan.body.cells@[k].col_nr == col
                    &&& plan.body.cells@[k].clip_rect == clip
                    &&& plan.body.cells@[k].rect == (if self.columns@[col as int].auto_size_this_frame {
                        crate::geom::Rect {
                            max: crate::geom::Vec2 {
                                x: (clip.min.x + self.columns@[col as int].min) as i64,
                                ..clip.max
                            },
                            ..clip
                        }
                    } else {
                        clip
                    })
                },
            plan.left_strip.cells@.len() == (plan.left_strip.row_range.1
                - plan.left_strip.row_range.0) * (plan.left_strip.col_range.1
                - plan.left_strip.col_range.0),
            forall|k: int|
                0 <= k < plan.left_strip.cells@.len() ==> {
                    let rr = plan.left_strip.row_range;
                    let cr = plan.left_strip.col_range;
                    let ncols = cr.1 - cr.0;
                    let row = rr.0 + k / ncols;
                    let col = cr.0 + k % ncols;
                    let clip = cell_clip_spec(
                        d,
                        vec1_elems(&plan.col_x),
                        plan.header_bottom as int,
                        crate::geom::Vec2 { x: 0, y: scroll_offset.y },
                        row as int,
                        col as int,
                    );
                    &&& (#[trigger] plan.left_strip.cells@[k]).row_nr == row
                    &&& plan.left_strip.cells@[k].col_nr == col
                    &&& plan.left_strip.cells@[k].clip_rect == clip
                    &&& plan.left_strip.cells@[k].rect == (if self.columns@[col as int].auto_size_this_frame {
                        crate::geom::Rect {
                            max: crate::geom::Vec2 {
                                x: (clip.min.x + self.columns@[col as int].min) as i64,
                                ..clip.max
                            },
                            ..clip
                        }
                    } else {
                        clip
                    })
                },
    {
        proof {
            d.wf_properties();
        }
        let n = self.columns.len();
        let col_x = crate::offsets::build_col_offsets(&self.columns, origin.x);
        let header_y = build_header_offsets(&self.headers, origin.y);
        let x_first = crate::offsets::vec1_get(&col_x, 0);
        let x_split = crate::offsets::vec1_get(&col_x, self.num_sticky_cols);
        let x_last = crate::offsets::vec1_get(&col_x, n);
        let header_bottom = crate::offsets::vec1_last(&header_y);
        let sticky_width = x_split - x_first;
        let header_height = header_bottom - origin.y;
        let content_width = x_last - x_split;
        let content_height = d.row_top_offset(self.num_rows);
        proof {
            crate::offsets::lemma_sum_cur_prefix_monotone(
                self.columns@,
                0,
                self.num_sticky_cols as int,
            );
            crate::offsets::lemma_sum_cur_prefix_monotone(
                self.columns@,
                self.num_sticky_cols as int,
                n as int,
            );
            assert(self.columns@.subrange(0, 0) =~= Seq::<Column>::empty());
            assert(self.columns@.subrange(0, n as int) =~= self.columns@);
            crate::columns::lemma_sum_facts(self.columns@);
            assert((n as int) * crate::MAX_WIDTH <= (MAX_COLS as int) * crate::MAX_WIDTH)
                by (nonlinear_arith)
                requires
                    0 <= (n as int) && (n as int) <= (MAX_COLS as int),
            ;
            lemma_sum_heights_prefix_monotone(self.headers@, 0, self.headers@.len() as int);
            assert(self.headers@.subrange(0, 0) =~= Seq::<HeaderRow>::empty());
            assert(self.headers@.subrange(0, self.headers@.len() as int) =~= self.headers@);
            lemma_sum_heights_bound(self.headers@);
            assert((self.headers@.len() as int) * crate::MAX_WIDTH <= (MAX_COLS as int)
                * crate::MAX_WIDTH) by (nonlinear_arith)
                requires
                    0 <= (self.headers@.len() as int) && (self.headers@.len() as int) <= (
                    MAX_COLS as int),
            ;
        }
        let outer_w = if avail_size.x > sticky_width {
            avail_size.x - sticky_width
        } else {
            0
        };
        let outer_h = if avail_size.y > header_height {
            avail_size.y - header_height
        } else {
            0
        };
        let split = crate::split_scroll::SplitScroll {
            scroll_enabled_x: true,
            scroll_enabled_y: true,
            fixed_size: crate::geom::Vec2 { x: sticky_width, y: header_height },
            scroll_outer_size: crate::geom::Vec2 { x: outer_w, y: outer_h },
            scroll_content_size: crate::geom::Vec2 { x: content_width, y: content_height },
        };
        let quadrants = split.layout(origin, scroll_offset);
        // Rows: the body viewport spans `[offset.y, offset.y + outer_h)` of
        // the body's own y axis.
        let rows = self.visible_row_range(d, scroll_offset.y, scroll_offset.y + outer_h);
        // Columns of the body: the band right of the sticky columns, shifted
        // by the scroll offset; during a sizing pass, every column.
        let cols = if full_sizing && n > 0 {
            (0, n)
        } else {
            visible_col_range(
                &col_x,
                x_split + scroll_offset.x,
                x_split + scroll_offset.x + outer_w,
            )
        };
        let prefetch = PrefetchInfo {
            num_sticky_columns: self.num_sticky_cols,
            visible_columns: ColRange { start: cols.0, end: cols.1 },
            visible_rows: rows,
            table_id: self.id_salt,
        };
        let body_cells = enumerate_cells(
            d,
            &self.columns,
            &col_x,
            header_bottom,
            scroll_offset,
            rows,
            cols,
        );
        // The sticky strip: the band left of the split, scrolled only on y.
        let left_cols = if full_sizing && n > 0 {
            (0, n)
        } else {
            visible_col_range(&col_x, x_first, x_split)
        };
        proof {
            let t = vec1_elems(&col_x);
            if !(full_sizing && n > 0) && n > 0 && x_first < x_split {
                if left_cols.1 > self.num_sticky_cols {
                    assert(left_cols.1 >= 2 || left_cols.1 == 1);
                    if left_cols.1 == 1 {
                        assert(false);
                    } else {
                        assert(t[left_cols.1 as int - 1] <= x_split - 1);
                        assert(t[self.num_sticky_cols as int] <= t[left_cols.1 as int - 1]);
                        assert(false);
                    }
                }
            }
        }
        let left_cells = enumerate_cells(
            d,
            &self.columns,
            &col_x,
            header_bottom,
            crate::geom::Vec2 { x: 0, y: scroll_offset.y },
            rows,
            left_cols,
        );
        proof {
            assert(vec1_elems(&header_y)[self.headers@.len() as int] == origin.y + sum_heights(
                self.headers@.subrange(0, self.headers@.len() as int),
            ));
            assert(split == self.split_spec(d, avail_size));
        }
        FramePlan {
            quadrants,
            prefetch,
            body: RegionPlan { col_range: cols, row_range: rows, cells: body_cells },
            left_strip: RegionPlan { col_range: left_cols, row_range: rows, cells: left_cells },
            col_x,
            header_row_y: header_y,
            header_bottom,
            sticky_width,
        }
    }
}

/// One header cell: the group it renders, the columns it spans, and its
/// rectangles (content and clip).
#[derive(Clone, Copy, Debug)]
pub struct HeaderCellPlacement {
    pub group_index: usize,
    pub col_range: ColRange,
    pub row_nr: usize,
    pub rect: crate::geom::Rect,
    pub clip_rect: crate::geom::Rect,
}

/// The effective groups of a header row: its own groups, or one group per
/// column when none are given.
pub open spec fn header_groups_spec(groups: Seq<ColRange>, ncols: int) -> Seq<ColRange> {
    if groups.len() == 0 {
        Seq::new(ncols as nat, |i: int| ColRange { start: i as usize, end: (i + 1) as usize })
    } else {
        groups
    }
}

/// Sum of the lower width bounds of the columns `[start, end)`.
pub fn sum_min_range(columns: &Vec<Column>, start: usize, end: usize) -> (m: i64)
    requires
        columns@.len() <= MAX_COLS,
        forall|i: int| 0 <= i < columns@.len() ==> col_wf(#[trigger] columns@[i]),
        start <= end <= columns@.len(),
    ensures
        m == crate::columns::sum_min(columns@.subrange(start as int, end as int)),
        0 <= m <= (MAX_COLS as i64) * crate::MAX_WIDTH,
{
    let mut m: i64 = 0;
    let mut c = start;
    proof {
        assert(columns@.subrange(start as int, start as int) =~= Seq::<Column>::empty());
    }
    while c < end
        invariant
            columns@.len() <= MAX_COLS,
            forall|i: int| 0 <= i < columns@.len() ==> col_wf(#[trigger] columns@[i]),
            start <= c <= end <= columns@.len(),
            m == crate::columns::sum_min(columns@.subrange(start as int, c as int)),
            0 <= m,
            m as int <= (c - start) * crate::MAX_WIDTH,
        decreases end - c,
    {
        proof {
            assert(columns@.subrange(start as int, c as int + 1).drop_last() =~= columns@.subrange(
                start as int,
                c as int,
            ));
            assert(columns@.subrange(start as int, c as int + 1).last() == columns@[c as int]);
            assert(col_wf(columns@[c as int]));
            assert((c - start) as int * crate::MAX_WIDTH + crate::MAX_WIDTH == ((c + 1) - start)
                as int * crate::MAX_WIDTH) by (nonlinear_arith);
            assert(((c + 1) - start) as int * crate::MAX_WIDTH <= (MAX_COLS as int)
                * crate::MAX_WIDTH) by (nonlinear_arith)
                requires
                    0 <= ((c + 1) - start) as int && ((c + 1) - start) as int <= MAX_COLS as int,
            ;
        }
        m = m + columns[c].min;
        c = c + 1;
    }
    proof {
        assert((c - start) as int * crate::MAX_WIDTH <= (MAX_COLS as int) * crate::MAX_WIDTH)
            by (nonlinear_arith)
            requires
                0 <= (c - start) as int && (c - start) as int <= MAX_COLS as int,
        ;
    }
    m
}

impl Table {
    /// Plan one header row: one placement per group, spanning the group's
    /// columns between `y_top` and `y_bottom`, shifted left by `offset_x`.
    /// A group whose last column is being measured has its content rect
    /// shrunk to the sum of the group's lower width bounds; its clip stays.
    pub fn plan_header_row(
        &self,
        row_nr: usize,
        col_x: &Vec1<i64>,
        y_top: i64,
        y_bottom: i64,
        offset_x: i64,
    ) -> (out: Vec<HeaderCellPlacement>)
        requires
            self.wf(),
            row_nr < self.headers@.len(),
            vec1_elems(col_x).len() == self.columns@.len() + 1,
            offsets_wf(col_x),
            -MAX_COORD / 2 <= y_top <= MAX_COORD / 2,
            -MAX_COORD / 2 <= y_bottom <= MAX_COORD / 2,
            0 <= offset_x <= MAX_COORD / 4,
        ensures
            ({
                let groups = header_groups_spec(
                    self.headers@[row_nr as int].groups@,
                    self.columns@.len() as int,
                );
                let t = vec1_elems(col_x);
                &&& out@.len() == groups.len()
                &&& forall|k: int|
                    0 <= k < out@.len() ==> {
                        let g = groups[k];
                        let clip = crate::geom::Rect {
                            min: crate::geom::Vec2 { x: (t[g.start as int] - offset_x) as i64, y: y_top },
                            max: crate::geom::Vec2 {
                                x: (t[g.end as int] - offset_x) as i64,
                                y: y_bottom,
                            },
                        };
                        &&& (#[trigger] out@[k]).group_index == k
                        &&& out@[k].col_range == g
                        &&& out@[k].row_nr == row_nr
                        &&& out@[k].clip_rect == clip
                        &&& out@[k].rect == (if self.columns@[g.end as int - 1].auto_size_this_frame {
                            crate::geom::Rect {
                                max: crate::geom::Vec2 {
                                    x: (clip.min.x + crate::columns::sum_min(
                                        self.columns@.subrange(g.start as int, g.end as int),
                                    )) as i64,
                                    ..clip.max
                                },
                                ..clip
                            }
                        } else {
                            clip
                        })
                    }
            }),
    {
        let mut out: Vec<HeaderCellPlacement> = Vec::new();
        let explicit = self.headers[row_nr].groups.len();
        if explicit == 0 {
            let n = self.columns.len();
            let mut k: usize = 0;
            while k < n
                invariant
                    self.wf(),
                    n == self.columns@.len(),
                    row_nr < self.headers@.len(),
                    self.headers@[row_nr as int].groups@.len() == 0,
                    vec1_elems(col_x).len() == n + 1,
                    offsets_wf(col_x),
                    -MAX_COORD / 2 <= y_top <= MAX_COORD / 2,
                    -MAX_COORD / 2 <= y_bottom <= MAX_COORD / 2,
                    0 <= offset_x <= MAX_COORD / 4,
                    k <= n,
                    out@.len() == k,
                    forall|j: int|
                        0 <= j < k ==> {
                            let g = header_groups_spec(
                                self.headers@[row_nr as int].groups@,
                                n as int,
                            )[j];
                            let t = vec1_elems(col_x);
                            let clip = crate::geom::Rect {
                                min: crate::geom::Vec2 {
                                    x: (t[g.start as int] - offset_x) as i64,
                                    y: y_top,
                                },
                                max: crate::geom::Vec2 {
                                    x: (t[g.end as int] - offset_x) as i64,
                                    y: y_bottom,
                                },
                            };
                            &&& (#[trigger] out@[j]).group_index == j
                            &&& out@[j].col_range == g
                            &&& out@[j].row_nr == row_nr
                            &&& out@[j].clip_rect == clip
                            &&& out@[j].rect == (if self.columns@[g.end as int
                                - 1].auto_size_this_frame {
                                crate::geom::Rect {
                                    max: crate::geom::Vec2 {
                                        x: (clip.min.x + crate::columns::sum_min(
                                            self.columns@.subrange(g.start as int, g.end as int),
                                        )) as i64,
                                        ..clip.max
                                    },
                                    ..clip
                                }
                            } else {
                                clip
                            })
                        },
                decreases n - k,
            {
                let clip = crate::geom::Rect {
                    min: crate::geom::Vec2 {
                        x: crate::offsets::vec1_get(col_x, k) - offset_x,
                        y: y_top,
                    },
                    max: crate::geom::Vec2 {
                        x: crate::offsets::vec1_get(col_x, k + 1) - offset_x,
                        y: y_bottom,
                    },
                };
                let rect = if self.columns[k].auto_size_this_frame {
                    let msum = sum_min_range(&self.columns, k, k + 1);
                    crate::geom::Rect {
                        max: crate::geom::Vec2 { x: clip.min.x + msum, ..clip.max },
                        ..clip
                    }
                } else {
                    clip
                };
                out.push(
                    HeaderCellPlacement {
                        group_index: k,
                        col_range: ColRange { start: k, end: k + 1 },
                        row_nr,
                        rect,
                        clip_rect: clip,
                    },
                );
                k = k + 1;
            }
            out
        } else {
            let mut k: usize = 0;
            while k < explicit
                invariant
                    self.wf(),
                    row_nr < self.headers@.len(),
                    explicit == self.headers@[row_nr as int].groups@.len(),
                    explicit > 0,
                    vec1_elems(col_x).len() == self.columns@.len() + 1,
                    offsets_wf(col_x),
                    -MAX_COORD / 2 <= y_top <= MAX_COORD / 2,
                    -MAX_COORD / 2 <= y_bottom <= MAX_COORD / 2,
                    0 <= offset_x <= MAX_COORD / 4,
                    k <= explicit,
                    out@.len() == k,
                    forall|j: int|
                        0 <= j < k ==> {
                            let g = header_groups_spec(
                                self.headers@[row_nr as int].groups@,
                                self.columns@.len() as int,
                            )[j];
                            let t = vec1_elems(col_x);
                            let clip = crate::geom::Rect {
                                min: crate::geom::Vec2 {
                                    x: (t[g.start as int] - offset_x) as i64,
                                    y: y_top,
                                },
                                max: crate::geom::Vec2 {
                                    x: (t[g.end as int] - offset_x) as i64,
                                    y: y_bottom,
                                },
                            };
                            &&& (#[trigger] out@[j]).group_index == j
                            &&& out@[j].col_range == g
                            &&& out@[j].row_nr == row_nr
                            &&& out@[j].clip_rect == clip
                            &&& out@[j].rect == (if self.columns@[g.end as int
                                - 1].auto_size_this_frame {
                                crate::geom::Rect {
                                    max: crate::geom::Vec2 {
                                        x: (clip.min.x + crate::columns::sum_min(
                                            self.columns@.subrange(g.start as int, g.end as int),
                                        )) as i64,
                                        ..clip.max
                                    },
                                    ..clip
                                }
                            } else {
                                clip
                            })
                        },
                decreases explicit - k,
            {
                let g = self.headers[row_nr].groups[k];
                proof {
                    assert(self.headers@[row_nr as int].groups@[k as int] == g);
                    assert(g.start < g.end <= self.columns@.len());
                }
                let clip = crate::geom::Rect {
                    min: crate::geom::Vec2 {
                        x: crate::offsets::vec1_get(col_x, g.start) - offset_x,
                        y: y_top,
                    },
                    max: crate::geom::Vec2 {
                        x: crate::offsets::vec1_get(col_x, g.end) - offset_x,
                        y: y_bottom,
                    },
                };
                let rect = if self.columns[g.end - 1].auto_size_this_frame {
                    let msum = sum_min_range(&self.columns, g.start, g.end);
                    crate::geom::Rect {
                        max: crate::geom::Vec2 { x: clip.min.x + msum, ..clip.max },
                        ..clip
                    }
                } else {
                    clip
                };
                out.push(
                    HeaderCellPlacement { group_index: k, col_range: g, row_nr, rect, clip_rect: clip },
                );
                k = k + 1;
            }
            out
        }
    }
}

/// The scroll-relative coordinate of a column boundary for a scroll-to
/// request: the boundary's offset from the first boundary, pulled back by
/// the sticky band when it lies inside it, since sticky content sits before
/// the scroll origin.
pub open spec fn scroll_rel_spec(t: Seq<i64>, num_sticky: int, c: int) -> int {
    let rel = t[c] - t[0];
    let sticky = t[num_sticky] - t[0];
    if rel < sticky {
        rel - sticky
    } else {
        rel
    }
}

/// The x band `[xs.0, xs.1)` to scroll into view so that the inclusive
/// column range `[start, end]` becomes visible.
pub fn scroll_target_x(
    col_x: &Vec1<i64>,
    num_sticky: usize,
    start: usize,
    end: usize,
    view_left: i64,
) -> (xs: (i64, i64))
    requires
        offsets_wf(col_x),
        2 <= vec1_elems(col_x).len() <= MAX_COLS + 1,
        num_sticky < vec1_elems(col_x).len(),
        start <= end,
        end + 1 < vec1_elems(col_x).len(),
        -MAX_COORD / 4 <= view_left <= MAX_COORD / 4,
    ensures
        xs.0 == view_left + scroll_rel_spec(vec1_elems(col_x), num_sticky as int, start as int),
        xs.1 == view_left + scroll_rel_spec(
            vec1_elems(col_x),
            num_sticky as int,
            end as int + 1,
        ),
{
    let t0 = crate::offsets::vec1_get(col_x, 0);
    let sticky = crate::offsets::vec1_get(col_x, num_sticky) - t0;
    let rel_start = crate::offsets::vec1_get(col_x, start) - t0;
    let rel_end = crate::offsets::vec1_get(col_x, end + 1) - t0;
    let x0 = if rel_start < sticky {
        rel_start - sticky
    } else {
        rel_start
    };
    let x1 = if rel_end < sticky {
        rel_end - sticky
    } else {
        rel_end
    };
    (view_left + x0, view_left + x1)
}

/// The scroll-relative coordinate of a row boundary, pulled back by the
/// sticky header band when it lies inside it.
pub open spec fn scroll_rel_row_spec<D: TableDelegate>(d: &D, header_height: int, r: int) -> int {
    let y = d.row_offset_spec(r);
    if y < header_height {
        y - header_height
    } else {
        y
    }
}

/// The y band `[ys.0, ys.1)` to scroll into view so that the inclusive row
/// range `[first, last]` becomes visible.
pub fn scroll_target_y<D: TableDelegate>(
    d: &D,
    header_height: i64,
    first: u64,
    last: u64,
    view_top: i64,
) -> (ys: (i64, i64))
    requires
        d.wf(),
        first <= last,
        last < MAX_ROWS,
        0 <= header_height <= MAX_COORD / 4,
        -MAX_COORD / 4 <= view_top <= MAX_COORD / 4,
    ensures
        ys.0 == view_top + scroll_rel_row_spec(d, header_height as int, first as int),
        ys.1 == view_top + scroll_rel_row_spec(d, header_height as int, last as int + 1),
{
    proof {
        d.wf_properties();
    }
    let y_first = d.row_top_offset(first);
    let y_end = d.row_top_offset(last + 1);
    let y0 = if y_first < header_height {
        y_first - header_height
    } else {
        y_first
    };
    let y1 = if y_end < header_height {
        y_end - header_height
    } else {
        y_end
    };
    (view_top + y0, view_top + y1)
}

/// Whether this frame redistributes the widths, per the policy: never;
/// always; or when the parent width differs from the one last seen (a parent
/// never seen counts as changed).
pub fn should_auto_size(
    mode: AutoSizeMode,
    last_parent_width: Option<i64>,
    parent_width: i64,
) -> (b: bool)
    ensures
        b == (match mode {
            AutoSizeMode::Never => false,
            AutoSizeMode::Always => true,
            AutoSizeMode::OnParentResize => last_parent_width != Some(parent_width),
        }),
{
    match mode {
        AutoSizeMode::Never => false,
        AutoSizeMode::Always => true,
        AutoSizeMode::OnParentResize => match last_parent_width {
            None => true,
            Some(w) => w != parent_width,
        },
    }
}

/// The width a column resolves to at the start of a frame: the persisted
/// width under the column's id if one exists, else the configured width,
/// clamped into the column's range either way.
pub open spec fn resolved_width_spec(c: Column, col_idx: usize, widths: Map<u64, i64>) -> int {
    let base = if widths.contains_key(c.id_for_spec(col_idx)) {
        widths[c.id_for_spec(col_idx)] as int
    } else {
        c.current as int
    };
    clamp_spec(base, c.min as int, c.max as int)
}

/// Resolve every column's width from the persisted state and clamp it; on a
/// table's first frame, additionally mark every column for measurement.
pub fn resolve_widths(columns: &mut Vec<Column>, state: &TableState, first_frame: bool)
    requires
        old(columns)@.len() <= MAX_COLS,
        forall|i: int| 0 <= i < old(columns)@.len() ==> col_wf(#[trigger] old(columns)@[i]),
    ensures
        final (columns)@.len() == old(columns)@.len(),
        forall|i: int|
            0 <= i < final (columns)@.len() ==> {
                let c = #[trigger] final (columns)@[i];
                let o = old(columns)@[i];
                &&& c.min == o.min
                &&& c.max == o.max
                &&& c.id == o.id
                &&& c.resizable == o.resizable
                &&& c.auto_size_this_frame == (o.auto_size_this_frame || first_frame)
                &&& c.current == resolved_width_spec(o, i as usize, state.col_widths@)
                &&& col_wf(c) && col_clamped(c)
            },
{
    broadcast use vstd::std_specs::btree::group_btree_axioms;
    broadcast use vstd::laws_cmp::group_laws_cmp;

    let n = columns.len();
    let ghost s0 = columns@;
    let mut i: usize = 0;
    while i < n
        invariant
            n == columns@.len() == s0.len(),
            n <= MAX_COLS,
            forall|j: int| 0 <= j < n ==> col_wf(#[trigger] s0[j]),
            forall|j: int| i <= j < n ==> columns@[j] == s0[j],
            forall|j: int|
                0 <= j < i ==> {
                    let c = #[trigger] columns@[j];
                    let o = s0[j];
                    &&& c.min == o.min
                    &&& c.max == o.max
                    &&& c.id == o.id
                    &&& c.resizable == o.resizable
                    &&& c.auto_size_this_frame == (o.auto_size_this_frame || first_frame)
                    &&& c.current == resolved_width_spec(o, j as usize, state.col_widths@)
                    &&& col_wf(c) && col_clamped(c)
                },
        decreases n - i,
    {
        let c = columns[i];
        proof {
            assert(c == s0[i as int]);
            assert(col_wf(s0[i as int]));
        }
        let column_id = c.id_for(i);
        let base = match state.col_widths.get(&column_id) {
            Some(w) => *w,
            None => c.current,
        };
        let w = crate::clamp_i64(base, c.min, c.max);
        let auto = c.auto_size_this_frame || first_frame;
        columns[i] = Column { current: w, auto_size_this_frame: auto, ..c };
        i = i + 1;
    }
}

impl Table {
    /// Start a frame: clamp the sticky-column count, resolve the widths from
    /// the persisted state (marking every column for measurement on a first
    /// frame), redistribute them to the parent width when the policy says
    /// so, and remember the parent width.
    pub fn begin_frame(&mut self, state: &mut TableState, parent_width: i64, first_frame: bool)
        requires
            old(self).wf(),
            0 <= parent_width <= crate::MAX_WIDTH,
        ensures
            final (self).wf(),
            final (self).columns@.len() == old(self).columns@.len(),
            final (self).num_sticky_cols == (if old(self).num_sticky_cols
                <= old(self).columns@.len() {
                old(self).num_sticky_cols as int
            } else {
                old(self).columns@.len() as int
            }),
            final (self).headers@ == old(self).headers@,
            final (self).num_rows == old(self).num_rows,
            final (self).id_salt == old(self).id_salt,
            final (self).auto_size_mode == old(self).auto_size_mode,
            final (state).parent_width == Some(parent_width),
            final (state).col_widths@ == old(state).col_widths@,
            forall|i: int|
                0 <= i < final (self).columns@.len() ==> {
                    let c = #[trigger] final (self).columns@[i];
                    let o = old(self).columns@[i];
                    &&& c.min == o.min
                    &&& c.max == o.max
                    &&& c.id == o.id
                    &&& c.resizable == o.resizable
                    &&& c.auto_size_this_frame == (o.auto_size_this_frame || first_frame)
                    &&& col_wf(c) && col_clamped(c)
                },
            ({
                let auto = match old(self).auto_size_mode {
                    AutoSizeMode::Never => false,
                    AutoSizeMode::Always => true,
                    AutoSizeMode::OnParentResize => old(state).parent_width != Some(parent_width),
                };
                &&& (auto && final (self).columns@.len() > 0
                    ==> crate::columns::sum_cur(final (self).columns@) == clamp_spec(
                    parent_width as int,
                    crate::columns::sum_min(final (self).columns@),
                    crate::columns::sum_max(final (self).columns@),
                ))
                &&& (!auto ==> forall|i: int|
                    0 <= i < final (self).columns@.len()
                        ==> (#[trigger] final (self).columns@[i]).current == resolved_width_spec(
                        old(self).columns@[i],
                        i as usize,
                        old(state).col_widths@,
                    ))
            }),
    {
        if self.num_sticky_cols > self.columns.len() {
            self.num_sticky_cols = self.columns.len();
        }
        resolve_widths(&mut self.columns, state, first_frame);
        let auto = should_auto_size(self.auto_size_mode, state.parent_width, parent_width);
        if auto {
            let ghost resolved = self.columns@;
            Column::auto_size(&mut self.columns, parent_width);
            proof {
                crate::columns::lemma_sums_same_config(self.columns@, resolved);
            }
        }
        state.parent_width = Some(parent_width);
    }
}


} // verus!
