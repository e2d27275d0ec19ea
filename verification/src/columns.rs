//! Constrained column auto-sizing.

use vstd::prelude::*;

use crate::{clamp_spec, MAX_COLS, MAX_WIDTH};
use vstd::arithmetic::div_mod::{
    lemma_div_pos_is_pos, lemma_fundamental_div_mod, lemma_mod_division_less_than_divisor,
};

verus! {

/// One table column: its resolved width, the inclusive range the width must
/// stay in, an optional identity, and interaction flags.
#[derive(Clone, Copy, Debug)]
pub struct Column {
    /// Current and/or initial column width.
    pub current: i64,
    /// Lower bound of the allowed width range.
    pub min: i64,
    /// Upper bound of the allowed width range.
    pub max: i64,
    /// Optional unique id within the parent table.
    pub id: Option<u64>,
    /// Can the user resize this column?
    pub resizable: bool,
    /// If set, the column is measured this frame so it can be auto-sized.
    pub auto_size_this_frame: bool,
}

/// A column's configured range is sane and bounded.
pub open spec fn col_wf(c: Column) -> bool {
    0 <= c.min <= c.max <= MAX_WIDTH
}

/// A column's current width lies inside its configured range.
pub open spec fn col_clamped(c: Column) -> bool {
    c.min <= c.current <= c.max
}

/// Two columns agree on everything except the current width.
pub open spec fn same_config(a: Column, b: Column) -> bool {
    &&& a.min == b.min
    &&& a.max == b.max
    &&& a.id == b.id
    &&& a.resizable == b.resizable
    &&& a.auto_size_this_frame == b.auto_size_this_frame
}

impl Default for Column {
    /// A resizable 100 px column with a near-unbounded range.
    fn default() -> (c: Column)
        ensures
            c.current == 100,
            c.min == 4,
            c.max == MAX_WIDTH,
            c.id is None,
            c.resizable,
            !c.auto_size_this_frame,
    {
        Column {
            current: 100,
            min: 4,
            max: MAX_WIDTH,
            id: None,
            resizable: true,
            auto_size_this_frame: false,
        }
    }
}

impl Column {
    /// A column with the given current (and initial) width.
    pub fn new(current: i64) -> (c: Column)
        ensures
            c.current == current,
            c.min == 4,
            c.max == MAX_WIDTH,
            c.id is None,
            c.resizable,
            !c.auto_size_this_frame,
    {
        Column { current, ..Default::default() }
    }

    /// Set the allowed width range.
    pub fn range(self, min: i64, max: i64) -> (c: Column)
        ensures
            c == (Column { min, max, ..self }),
    {
        Column { min, max, ..self }
    }

    /// Set an id unique within the parent table.
    pub fn id(self, id: u64) -> (c: Column)
        ensures
            c == (Column { id: Some(id), ..self }),
    {
        Column { id: Some(id), ..self }
    }

    /// Set whether the user can resize this column.
    pub fn resizable(self, resizable: bool) -> (c: Column)
        ensures
            c == (Column { resizable, ..self }),
    {
        Column { resizable, ..self }
    }

    /// Request an accurate measurement of this column this frame.
    pub fn auto_size_this_frame(self, auto_size_this_frame: bool) -> (c: Column)
        ensures
            c == (Column { auto_size_this_frame, ..self }),
    {
        Column { auto_size_this_frame, ..self }
    }

    /// The column's id, defaulting to its index in the table.
    pub fn id_for(&self, col_idx: usize) -> (r: u64)
        ensures
            r == self.id_for_spec(col_idx),
    {
        match self.id {
            Some(id) => id,
            None => col_idx as u64,
        }
    }

    /// What [`Column::id_for`] returns.
    pub open spec fn id_for_spec(&self, col_idx: usize) -> u64 {
        match self.id {
            Some(id) => id,
            None => col_idx as u64,
        }
    }
}

/// Sum of the current widths.
pub open spec fn sum_cur(s: Seq<Column>) -> int
    decreases s.len(),
{
    if s.len() == 0 {
        0
    } else {
        sum_cur(s.drop_last()) + s.last().current
    }
}

/// Sum of the lower range bounds.
pub open spec fn sum_min(s: Seq<Column>) -> int
    decreases s.len(),
{
    if s.len() == 0 {
        0
    } else {
        sum_min(s.drop_last()) + s.last().min
    }
}

/// Sum of the upper range bounds.
pub open spec fn sum_max(s: Seq<Column>) -> int
    decreases s.len(),
{
    if s.len() == 0 {
        0
    } else {
        sum_max(s.drop_last()) + s.last().max
    }
}

/// How much a column's width can still move in the given direction
/// (grow towards `max`, or shrink towards `min`).
pub open spec fn room_of(c: Column, grow: bool) -> int {
    if grow {
        c.max - c.current
    } else {
        c.current - c.min
    }
}

/// Whether a column still has room in the given direction.
pub open spec fn is_active(c: Column, grow: bool) -> bool {
    room_of(c, grow) > 0
}

/// A column's contribution to the total distributable room.
pub open spec fn room_contrib(c: Column, grow: bool) -> int {
    if is_active(c, grow) {
        room_of(c, grow)
    } else {
        0
    }
}

/// Number of columns that still have room in the given direction.
pub open spec fn count_active(s: Seq<Column>, grow: bool) -> int
    decreases s.len(),
{
    if s.len() == 0 {
        0
    } else {
        count_active(s.drop_last(), grow) + if is_active(s.last(), grow) {
            1int
        } else {
            0int
        }
    }
}

/// Total room left in the given direction.
pub open spec fn sum_room(s: Seq<Column>, grow: bool) -> int
    decreases s.len(),
{
    if s.len() == 0 {
        0
    } else {
        sum_room(s.drop_last(), grow) + room_contrib(s.last(), grow)
    }
}

/// All columns share one current width and one range.
pub open spec fn all_same(s: Seq<Column>) -> bool {
    forall|i: int, j: int|
        0 <= i < s.len() && 0 <= j < s.len() ==> {
            &&& #[trigger] s[i].current == #[trigger] s[j].current
            &&& s[i].min == s[j].min
            &&& s[i].max == s[j].max
        }
}

/// A column with its width clamped into its range.
pub open spec fn clamp_col(c: Column) -> Column {
    Column { current: clamp_spec(c.current as int, c.min as int, c.max as int) as i64, ..c }
}

/// Every column's width clamped into its range.
pub open spec fn clamp_cols(s: Seq<Column>) -> Seq<Column> {
    s.map_values(|c: Column| clamp_col(c))
}

/// Replacing one element changes `sum_cur` by the difference of the currents,
/// and leaves `sum_min`/`sum_max` alone when the ranges agree.
pub proof fn lemma_sums_update(s: Seq<Column>, i: int, c: Column)
    requires
        0 <= i < s.len(),
    ensures
        sum_cur(s.update(i, c)) == sum_cur(s) + c.current - s[i].current,
        c.min == s[i].min ==> sum_min(s.update(i, c)) == sum_min(s),
        c.max == s[i].max ==> sum_max(s.update(i, c)) == sum_max(s),
    decreases s.len(),
{
    let t = s.update(i, c);
    if i == s.len() - 1 {
        assert(t.drop_last() =~= s.drop_last());
    } else {
        assert(t.drop_last() =~= s.drop_last().update(i, c));
        lemma_sums_update(s.drop_last(), i, c);
    }
}

/// Replacing one element changes `sum_room` by the difference of the
/// room contributions, and `count_active` accordingly.
pub proof fn lemma_room_update(s: Seq<Column>, i: int, c: Column, grow: bool)
    requires
        0 <= i < s.len(),
    ensures
        sum_room(s.update(i, c), grow) == sum_room(s, grow) - room_contrib(s[i], grow)
            + room_contrib(c, grow),
        count_active(s.update(i, c), grow) == count_active(s, grow) - (if is_active(s[i], grow) {
            1int
        } else {
            0int
        }) + (if is_active(c, grow) {
            1int
        } else {
            0int
        }),
    decreases s.len(),
{
    let t = s.update(i, c);
    if i == s.len() - 1 {
        assert(t.drop_last() =~= s.drop_last());
    } else {
        assert(t.drop_last() =~= s.drop_last().update(i, c));
        lemma_room_update(s.drop_last(), i, c, grow);
    }
}

/// For clamped columns the sums are ordered, and the total room in either
/// direction is exactly the distance from `sum_cur` to the relevant bound.
pub proof fn lemma_sum_facts(s: Seq<Column>)
    requires
        forall|i: int| 0 <= i < s.len() ==> col_wf(#[trigger] s[i]) && col_clamped(s[i]),
    ensures
        0 <= sum_min(s) <= sum_cur(s) <= sum_max(s),
        sum_max(s) <= s.len() * MAX_WIDTH,
        sum_room(s, true) == sum_max(s) - sum_cur(s),
        sum_room(s, false) == sum_cur(s) - sum_min(s),
        sum_room(s, true) <= count_active(s, true) * MAX_WIDTH,
        sum_room(s, false) <= count_active(s, false) * MAX_WIDTH,
        0 <= count_active(s, true) <= s.len(),
        0 <= count_active(s, false) <= s.len(),
    decreases s.len(),
{
    if s.len() > 0 {
        assert(forall|i: int|
            0 <= i < s.drop_last().len() ==> col_wf(#[trigger] s.drop_last()[i]) && col_clamped(
                s.drop_last()[i],
            ));
        lemma_sum_facts(s.drop_last());
        assert((s.len() - 1) * MAX_WIDTH + MAX_WIDTH == s.len() * MAX_WIDTH) by (nonlinear_arith);
        assert((count_active(s, true) - 1) * MAX_WIDTH + MAX_WIDTH == count_active(s, true)
            * MAX_WIDTH) by (nonlinear_arith);
        assert((count_active(s, false) - 1) * MAX_WIDTH + MAX_WIDTH == count_active(s, false)
            * MAX_WIDTH) by (nonlinear_arith);
        assert(count_active(s, true) * MAX_WIDTH >= 0) by (nonlinear_arith)
            requires
                count_active(s, true) >= 0,
        ;
        assert(count_active(s, false) * MAX_WIDTH >= 0) by (nonlinear_arith)
            requires
                count_active(s, false) >= 0,
        ;
    }
}

/// The width a column reaches once a change of `level` pixels has been
/// applied to it in the given direction, saturating at its bound.
pub open spec fn leveled_width(c: Column, level: int, grow: bool) -> int {
    if grow {
        if c.current + level <= c.max {
            c.current + level
        } else {
            c.max as int
        }
    } else {
        if c.current - level >= c.min {
            c.current - level
        } else {
            c.min as int
        }
    }
}

/// Whether the column still has room beyond the given level.
pub open spec fn level_unsaturated(c: Column, level: int, grow: bool) -> bool {
    if grow {
        c.current + level < c.max
    } else {
        c.current - level > c.min
    }
}

/// The shape of one resize pass over `base`: one common level moves every
/// width toward its bound with saturating columns stopping at the bound
/// (least room saturates first by construction), and where the change does
/// not divide evenly, the leading columns still unsaturated at that level
/// receive one further pixel each.
pub open spec fn evenly_leveled(base: Seq<Column>, out: Seq<Column>, level: int, grow: bool) -> bool {
    &&& 0 <= level
    &&& out.len() == base.len()
    &&& forall|i: int|
        0 <= i < out.len() ==> ((#[trigger] out[i]).current == leveled_width(base[i], level, grow)
            || out[i].current == leveled_width(base[i], level, grow) + signed(1, grow))
    &&& forall|i: int|
        0 <= i < out.len() && (#[trigger] out[i]).current != leveled_width(base[i], level, grow)
            ==> level_unsaturated(base[i], level, grow)
    &&& forall|i: int, j: int|
        0 <= i < j < out.len() && (#[trigger] out[j]).current != leveled_width(
            base[j],
            level,
            grow,
        ) && level_unsaturated(#[trigger] base[i], level, grow) ==> out[i].current
            != leveled_width(base[i], level, grow)
}

/// The count of columns with room grows with the prefix length.
pub proof fn lemma_count_active_prefix_monotone(s: Seq<Column>, a: int, b: int, grow: bool)
    requires
        0 <= a <= b <= s.len(),
    ensures
        count_active(s.subrange(0, a), grow) <= count_active(s.subrange(0, b), grow),
    decreases b - a,
{
    if a < b {
        lemma_count_active_prefix_monotone(s, a, b - 1, grow);
        assert(s.subrange(0, b).drop_last() =~= s.subrange(0, b - 1));
        assert(s.subrange(0, b).last() == s[b - 1]);
    }
}

/// Signed amount a distribution step adds to the width sum.
pub open spec fn signed(x: int, grow: bool) -> int {
    if grow {
        x
    } else {
        -x
    }
}

/// Distribute `delta0` pixels of change over the columns: grow towards the
/// `max` bounds or shrink towards the `min` bounds. Columns with the least
/// room saturate first; the remaining amount is split evenly over the rest,
/// any indivisible remainder going one pixel at a time to the leading columns
/// that still have room.
#[verifier::rlimit(80)]
fn distribute(columns: &mut Vec<Column>, delta0: i64, grow: bool)
    requires
        old(columns)@.len() <= MAX_COLS,
        forall|i: int|
            0 <= i < old(columns)@.len() ==> col_wf(#[trigger] old(columns)@[i]) && col_clamped(
                old(columns)@[i],
            ),
        0 <= delta0 <= sum_room(old(columns)@, grow),
    ensures
        final(columns)@.len() == old(columns)@.len(),
        forall|i: int|
            0 <= i < final(columns)@.len() ==> same_config(
                #[trigger] final(columns)@[i],
                old(columns)@[i],
            ),
        forall|i: int|
            0 <= i < final(columns)@.len() ==> col_wf(#[trigger] final(columns)@[i])
                && col_clamped(final(columns)@[i]),
        sum_cur(final(columns)@) == sum_cur(old(columns)@) + signed(delta0 as int, grow),
        forall|i: int|
            0 <= i < final(columns)@.len() ==> (if grow {
                #[trigger] final(columns)@[i].current >= old(columns)@[i].current
            } else {
                final(columns)@[i].current <= old(columns)@[i].current
            }),
        all_same(old(columns)@) && old(columns)@.len() > 0 && delta0 as int % (
        old(columns)@.len() as int) == 0 ==> all_same(final(columns)@),
        exists|level: int| #[trigger] evenly_leveled(old(columns)@, final(columns)@, level, grow),
{
    let n = columns.len();
    let ghost s_orig = columns@;
    let ghost mut lvl: int = 0;
    let ghost hyp = all_same(s_orig) && s_orig.len() > 0 && delta0 as int % (s_orig.len() as int)
        == 0;
    let mut delta: i64 = delta0;
    proof {
        assert forall|i: int| 0 <= i < n implies #[trigger] columns@[i].current == leveled_width(
            s_orig[i],
            0,
            grow,
        ) by {
            assert(col_clamped(s_orig[i]));
        }
        if delta0 == 0 {
            assert(evenly_leveled(s_orig, columns@, 0, grow));
        }
    }
    while delta > 0
        invariant
            n == columns@.len() == s_orig.len(),
            n <= MAX_COLS,
            forall|i: int| 0 <= i < n ==> same_config(#[trigger] columns@[i], s_orig[i]),
            forall|i: int|
                0 <= i < n ==> col_wf(#[trigger] columns@[i]) && col_clamped(columns@[i]),
            0 <= delta <= delta0,
            delta as int <= sum_room(columns@, grow),
            sum_cur(columns@) == sum_cur(s_orig) + signed(delta0 - delta, grow),
            forall|i: int|
                0 <= i < n ==> (if grow {
                    #[trigger] columns@[i].current >= s_orig[i].current
                } else {
                    columns@[i].current <= s_orig[i].current
                }),
            hyp == (all_same(s_orig) && s_orig.len() > 0 && delta0 as int % (
            s_orig.len() as int) == 0),
            hyp ==> all_same(columns@) && delta as int % (n as int) == 0,
            0 <= lvl,
            delta > 0 ==> forall|i: int|
                0 <= i < n ==> #[trigger] columns@[i].current == leveled_width(
                    s_orig[i],
                    lvl,
                    grow,
                ),
            delta == 0 ==> evenly_leveled(s_orig, columns@, lvl, grow),
        decreases delta,
    {
        let ghost s1 = columns@;
        // Pass 1: count the columns that still have room, and find the least
        // room among them.
        let mut k: usize = 0;
        let mut m: i64 = MAX_WIDTH + 1;
        let mut i: usize = 0;
        while i < n
            invariant
                n == columns@.len(),
                n <= MAX_COLS,
                columns@ == s1,
                forall|j: int|
                    0 <= j < n ==> col_wf(#[trigger] columns@[j]) && col_clamped(columns@[j]),
                i <= n,
                k as int == count_active(s1.subrange(0, i as int), grow),
                k <= i,
                1 <= m <= MAX_WIDTH + 1,
                k == 0 ==> m == MAX_WIDTH + 1,
                k > 0 ==> m <= MAX_WIDTH,
                forall|j: int|
                    0 <= j < i && is_active(#[trigger] s1[j], grow) ==> room_of(s1[j], grow) >= m,
                hyp ==> all_same(s1) && n > 0,
                hyp && is_active(s1[0], grow) ==> k == i && (i > 0 ==> m == room_of(s1[0], grow)),
                hyp && !is_active(s1[0], grow) ==> k == 0,
            decreases n - i,
        {
            let c = columns[i];
            proof {
                assert(c == s1[i as int]);
                if hyp {
                    assert(s1[i as int].current == s1[0].current && s1[i as int].min == s1[0].min
                        && s1[i as int].max == s1[0].max);
                }
            }
            let room: i64 = if grow {
                c.max - c.current
            } else {
                c.current - c.min
            };
            if room > 0 {
                k = k + 1;
                if room < m {
                    m = room;
                }
            }
            proof {
                assert(s1.subrange(0, i as int + 1).drop_last() =~= s1.subrange(0, i as int));
                assert(s1.subrange(0, i as int + 1).last() == s1[i as int]);
                if hyp && is_active(s1[0], grow) {
                    assert(is_active(s1[i as int], grow));
                    assert(col_wf(s1[i as int]) && col_clamped(s1[i as int]));
                    assert(room <= MAX_WIDTH);
                    assert(room == room_of(s1[0], grow));
                }
            }
            i = i + 1;
        }
        proof {
            assert(s1.subrange(0, n as int) =~= s1);
            lemma_sum_facts(s1);
            if k == 0 {
                assert(sum_room(s1, grow) <= 0) by (nonlinear_arith)
                    requires
                        sum_room(s1, grow) <= count_active(s1, grow) * MAX_WIDTH,
                        count_active(s1, grow) == 0,
                ;
                assert(false);
            }
        }
        let ki = k as i64;
        proof {
            assert(m as int * ki as int <= (MAX_WIDTH + 1) as int * (MAX_COLS as int))
                by (nonlinear_arith)
                requires
                    1 <= (m as int) && (m as int) <= MAX_WIDTH + 1,
                    1 <= (ki as int) && (ki as int) <= (MAX_COLS as int),
            ;
            assert(m as int * ki as int >= 1) by (nonlinear_arith)
                requires
                    (m as int) >= 1,
                    (ki as int) >= 1,
            ;
        }
        let mk = m * ki;
        if delta <= mk {
            // Pass 2a: every column with room can absorb an even share; split
            // `delta` evenly, handing the indivisible remainder out one pixel
            // at a time.
            let q = ((delta as u64) / (k as u64)) as i64;
            let r = ((delta as u64) % (k as u64)) as i64;
            proof {
                let di = delta as int;
                let kii = k as int;
                lemma_fundamental_div_mod(di, kii);
                lemma_mod_division_less_than_divisor(di, kii);
                lemma_div_pos_is_pos(di, kii);
                assert(q as int == di / kii && r as int == di % kii);
                assert(q as int * kii + r as int == di) by (nonlinear_arith)
                    requires
                        di == kii * (di / kii) + di % kii,
                        q as int == di / kii,
                        r as int == di % kii,
                ;
                assert(0 <= (r as int) && (r as int) < kii);
                assert((q as int) <= (m as int) && ((r as int) > 0 ==> (q as int) + 1 <= (m as int)))
                    by (nonlinear_arith)
                    requires
                        q as int * kii + r as int == di,
                        0 <= (r as int) && (r as int) < kii,
                        0 <= (q as int),
                        di <= m as int * kii,
                        0 < kii,
                ;
                if hyp {
                    if is_active(s1[0], grow) {
                        assert(k == n);
                        assert(r as int == di % (n as int));
                        assert(r == 0);
                    } else {
                        assert(false);
                    }
                }
            }
            let mut extra: i64 = r;
            let ghost mut na: int = 0;
            let mut i: usize = 0;
            while i < n
                invariant
                    n == columns@.len() == s1.len(),
                    n <= MAX_COLS,
                    i <= n,
                    forall|j: int| i <= j < n ==> columns@[j] == s1[j],
                    forall|j: int| 0 <= j < n ==> same_config(#[trigger] columns@[j], s1[j]),
                    forall|j: int|
                        0 <= j < n ==> col_wf(#[trigger] columns@[j]) && col_clamped(columns@[j]),
                    forall|j: int|
                        0 <= j < n && is_active(#[trigger] s1[j], grow) ==> room_of(s1[j], grow)
                            >= m,
                    forall|j: int|
                        0 <= j < n ==> (if grow {
                            #[trigger] columns@[j].current >= s1[j].current
                        } else {
                            columns@[j].current <= s1[j].current
                        }),
                    na == count_active(s1.subrange(0, i as int), grow),
                    0 <= na <= i,
                    0 <= q <= m <= MAX_WIDTH + 1,
                    0 <= r,
                    (r as int) < (ki as int),
                    r > 0 ==> q + 1 <= m,
                    n == s_orig.len(),
                    0 <= lvl,
                    forall|j: int| 0 <= j < n ==> same_config(#[trigger] s1[j], s_orig[j]),
                    forall|j: int|
                        0 <= j < n ==> #[trigger] s1[j].current == leveled_width(
                            s_orig[j],
                            lvl,
                            grow,
                        ),
                    forall|j: int|
                        0 <= j < i ==> #[trigger] columns@[j].current == leveled_width(
                            s_orig[j],
                            lvl + q,
                            grow,
                        ) + (if is_active(s1[j], grow) && count_active(
                            s1.subrange(0, j),
                            grow,
                        ) < r as int {
                            signed(1, grow)
                        } else {
                            0int
                        }),
                    0 <= extra <= r,
                    extra as int == (if na >= r as int {
                        0int
                    } else {
                        r as int - na
                    }),
                    sum_cur(columns@) == sum_cur(s1) + signed(
                        q as int * na + (r as int - extra as int),
                        grow,
                    ),
                    hyp ==> all_same(s1) && is_active(s1[0], grow) && r == 0,
                    hyp ==> forall|j: int|
                        0 <= j < i ==> #[trigger] columns@[j].current == s1[j].current + signed(
                            q as int,
                            grow,
                        ),
                decreases n - i,
            {
                let c = columns[i];
                proof {
                    assert(c == s1[i as int]);
                    if hyp {
                        assert(s1[i as int].current == s1[0].current && s1[i as int].min
                            == s1[0].min && s1[i as int].max == s1[0].max);
                        assert(is_active(s1[i as int], grow));
                    }
                }
                let room: i64 = if grow {
                    c.max - c.current
                } else {
                    c.current - c.min
                };
                let ghost pre = columns@;
                if room > 0 {
                    let mut d = q;
                    if extra > 0 {
                        d = d + 1;
                        extra = extra - 1;
                    }
                    proof {
                        assert(is_active(s1[i as int], grow));
                        assert(room_of(s1[i as int], grow) >= m);
                        assert(d <= m);
                        assert(room >= m);
                        assert(s1[i as int].current == leveled_width(s_orig[i as int], lvl, grow));
                        assert(same_config(s1[i as int], s_orig[i as int]));
                        if grow {
                            assert(s1[i as int].current < s1[i as int].max);
                            assert(s_orig[i as int].current + lvl == s1[i as int].current);
                            assert(s_orig[i as int].current + (lvl + q) <= s_orig[i as int].max);
                        } else {
                            assert(s1[i as int].current > s1[i as int].min);
                            assert(s_orig[i as int].current - lvl == s1[i as int].current);
                            assert(s_orig[i as int].current - (lvl + q) >= s_orig[i as int].min);
                        }
                    }
                    let nc = if grow {
                        Column { current: c.current + d, ..c }
                    } else {
                        Column { current: c.current - d, ..c }
                    };
                    columns[i] = nc;
                    proof {
                        assert(columns@ == pre.update(i as int, nc));
                        lemma_sums_update(pre, i as int, nc);
                        assert(columns@[i as int].current == leveled_width(
                            s_orig[i as int],
                            lvl + q,
                            grow,
                        ) + (if is_active(s1[i as int], grow) && count_active(
                            s1.subrange(0, i as int),
                            grow,
                        ) < r as int {
                            signed(1, grow)
                        } else {
                            0int
                        }));
                    }
                } else {
                    proof {
                        assert(!is_active(s1[i as int], grow));
                        assert(s1[i as int].current == leveled_width(s_orig[i as int], lvl, grow));
                        assert(same_config(s1[i as int], s_orig[i as int]));
                        if grow {
                            assert(s1[i as int].current == s1[i as int].max);
                            assert(s_orig[i as int].current + lvl >= s_orig[i as int].max);
                            assert(leveled_width(s_orig[i as int], lvl + q, grow)
                                == s_orig[i as int].max);
                        } else {
                            assert(s1[i as int].current == s1[i as int].min);
                            assert(s_orig[i as int].current - lvl <= s_orig[i as int].min);
                            assert(leveled_width(s_orig[i as int], lvl + q, grow)
                                == s_orig[i as int].min);
                        }
                    }
                }
                proof {
                    assert(s1.subrange(0, i as int + 1).drop_last() =~= s1.subrange(0, i as int));
                    assert(s1.subrange(0, i as int + 1).last() == s1[i as int]);
                    if is_active(s1[i as int], grow) {
                        assert(q as int * (na + 1) == q as int * na + q as int)
                            by (nonlinear_arith);
                        na = na + 1;
                    }
                }
                i = i + 1;
            }
            proof {
                assert(s1.subrange(0, n as int) =~= s1);
                assert(na == count_active(s1, grow));
                assert(na == ki as int);
                assert(extra == 0);
                assert(sum_cur(columns@) == sum_cur(s1) + signed(delta as int, grow));
                lemma_sum_facts(columns@);
                if hyp {
                    assert forall|x: int, y: int|
                        0 <= x < n && 0 <= y < n implies #[trigger] columns@[x].current
                        == #[trigger] columns@[y].current by {
                        assert(s1[x].current == s1[y].current);
                    }
                    assert(all_same(columns@));
                }
                // The pass realises the even-level shape at level `lvl + q`.
                assert forall|j: int|
                    0 <= j < n && (#[trigger] columns@[j]).current != leveled_width(
                        s_orig[j],
                        lvl + q,
                        grow,
                    ) implies level_unsaturated(s_orig[j], lvl + q, grow) by {
                    assert(is_active(s1[j], grow) && count_active(s1.subrange(0, j), grow)
                        < r as int);
                    assert(s1.subrange(0, 0) =~= Seq::<Column>::empty());
                    lemma_count_active_prefix_monotone(s1, 0, j, grow);
                    assert(r > 0);
                    assert(q + 1 <= m);
                    assert(room_of(s1[j], grow) >= m);
                    assert(s1[j].current == leveled_width(s_orig[j], lvl, grow));
                    assert(same_config(s1[j], s_orig[j]));
                    if grow {
                        assert(s_orig[j].current + lvl == s1[j].current);
                        assert(s1[j].max - s1[j].current >= q + 1);
                    } else {
                        assert(s_orig[j].current - lvl == s1[j].current);
                        assert(s1[j].current - s1[j].min >= q + 1);
                    }
                }
                assert forall|a: int, b: int|
                    0 <= a < b < n && (#[trigger] columns@[b]).current != leveled_width(
                        s_orig[b],
                        lvl + q,
                        grow,
                    ) && level_unsaturated(#[trigger] s_orig[a], lvl + q, grow) implies
                    columns@[a].current != leveled_width(s_orig[a], lvl + q, grow) by {
                    assert(is_active(s1[b], grow) && count_active(s1.subrange(0, b), grow)
                        < r as int);
                    assert(s1[a].current == leveled_width(s_orig[a], lvl, grow));
                    assert(same_config(s1[a], s_orig[a]));
                    if grow {
                        assert(s_orig[a].current + (lvl + q) < s_orig[a].max);
                        assert(s1[a].current < s1[a].max);
                    } else {
                        assert(s_orig[a].current - (lvl + q) > s_orig[a].min);
                        assert(s1[a].current > s1[a].min);
                    }
                    assert(is_active(s1[a], grow));
                    lemma_count_active_prefix_monotone(s1, a, b, grow);
                    assert(count_active(s1.subrange(0, a), grow) < r as int);
                }
                lvl = lvl + q;
                assert(evenly_leveled(s_orig, columns@, lvl, grow));
                if hyp {
                    assert(n > 0);
                    assert((0int) % (n as int) == 0);
                }
            }
            delta = 0;
        } else {
            // Pass 2b: saturate every column that still has room by the least
            // room `m`, then go round again with what remains.
            proof {
                if hyp {
                    lemma_all_same_sums(s1, grow);
                    if is_active(s1[0], grow) {
                        assert(sum_room(s1, grow) == n as int * room_of(s1[0], grow));
                        assert(m as int * ki as int == sum_room(s1, grow)) by (nonlinear_arith)
                            requires
                                m as int == room_of(s1[0], grow),
                                ki as int == n as int,
                                (n as int) > 0,
                                sum_room(s1, grow) == n as int * room_of(s1[0], grow),
                        ;
                        assert(false);
                    } else {
                        assert(false);
                    }
                }
            }
            let ghost mut na: int = 0;
            let mut i: usize = 0;
            while i < n
                invariant
                    n == columns@.len() == s1.len(),
                    n <= MAX_COLS,
                    i <= n,
                    forall|j: int| i <= j < n ==> columns@[j] == s1[j],
                    forall|j: int| 0 <= j < n ==> same_config(#[trigger] columns@[j], s1[j]),
                    forall|j: int|
                        0 <= j < n ==> col_wf(#[trigger] columns@[j]) && col_clamped(columns@[j]),
                    forall|j: int|
                        0 <= j < n && is_active(#[trigger] s1[j], grow) ==> room_of(s1[j], grow)
                            >= m,
                    forall|j: int|
                        0 <= j < n ==> (if grow {
                            #[trigger] columns@[j].current >= s1[j].current
                        } else {
                            columns@[j].current <= s1[j].current
                        }),
                    na == count_active(s1.subrange(0, i as int), grow),
                    0 <= na <= i,
                    1 <= m <= MAX_WIDTH,
                    n == s_orig.len(),
                    0 <= lvl,
                    forall|j: int| 0 <= j < n ==> same_config(#[trigger] s1[j], s_orig[j]),
                    forall|j: int|
                        0 <= j < n ==> #[trigger] s1[j].current == leveled_width(
                            s_orig[j],
                            lvl,
                            grow,
                        ),
                    forall|j: int|
                        0 <= j < i ==> #[trigger] columns@[j].current == leveled_width(
                            s_orig[j],
                            lvl + m,
                            grow,
                        ),
                    sum_cur(columns@) == sum_cur(s1) + signed(m as int * na, grow),
                    sum_room(columns@, grow) == sum_room(s1, grow) - m as int * na,
                decreases n - i,
            {
                let c = columns[i];
                proof {
                    assert(c == s1[i as int]);
                }
                let room: i64 = if grow {
                    c.max - c.current
                } else {
                    c.current - c.min
                };
                let ghost pre = columns@;
                if room > 0 {
                    proof {
                        assert(is_active(s1[i as int], grow));
                        assert(room_of(s1[i as int], grow) >= m);
                        assert(room >= m);
                        assert(s1[i as int].current == leveled_width(s_orig[i as int], lvl, grow));
                        assert(same_config(s1[i as int], s_orig[i as int]));
                        if grow {
                            assert(s_orig[i as int].current + lvl == s1[i as int].current);
                            assert(s_orig[i as int].current + (lvl + m) <= s_orig[i as int].max);
                        } else {
                            assert(s_orig[i as int].current - lvl == s1[i as int].current);
                            assert(s_orig[i as int].current - (lvl + m) >= s_orig[i as int].min);
                        }
                    }
                    let nc = if grow {
                        Column { current: c.current + m, ..c }
                    } else {
                        Column { current: c.current - m, ..c }
                    };
                    columns[i] = nc;
                    proof {
                        assert(columns@ == pre.update(i as int, nc));
                        lemma_sums_update(pre, i as int, nc);
                        lemma_room_update(pre, i as int, nc, grow);
                        assert(room_contrib(nc, grow) == room_contrib(pre[i as int], grow)
                            - m as int);
                        assert(columns@[i as int].current == leveled_width(
                            s_orig[i as int],
                            lvl + m,
                            grow,
                        ));
                    }
                } else {
                    proof {
                        assert(!is_active(s1[i as int], grow));
                        assert(s1[i as int].current == leveled_width(s_orig[i as int], lvl, grow));
                        assert(same_config(s1[i as int], s_orig[i as int]));
                        if grow {
                            assert(s1[i as int].current == s1[i as int].max);
                            assert(s_orig[i as int].current + lvl >= s_orig[i as int].max);
                            assert(leveled_width(s_orig[i as int], lvl + m, grow)
                                == s_orig[i as int].max);
                        } else {
                            assert(s1[i as int].current == s1[i as int].min);
                            assert(s_orig[i as int].current - lvl <= s_orig[i as int].min);
                            assert(leveled_width(s_orig[i as int], lvl + m, grow)
                                == s_orig[i as int].min);
                        }
                    }
                }
                proof {
                    assert(s1.subrange(0, i as int + 1).drop_last() =~= s1.subrange(0, i as int));
                    assert(s1.subrange(0, i as int + 1).last() == s1[i as int]);
                    if is_active(s1[i as int], grow) {
                        assert(m as int * (na + 1) == m as int * na + m as int)
                            by (nonlinear_arith);
                        na = na + 1;
                    }
                }
                i = i + 1;
            }
            proof {
                assert(s1.subrange(0, n as int) =~= s1);
                assert(na == count_active(s1, grow));
                assert(na == ki as int);
                assert(sum_cur(columns@) == sum_cur(s1) + signed(mk as int, grow));
                assert(sum_room(columns@, grow) == sum_room(s1, grow) - mk as int);
                lvl = lvl + m;
            }
            delta = delta - mk;
        }
    }
    proof {
        assert(evenly_leveled(s_orig, columns@, lvl, grow));
    }
}

/// Pointwise equal configurations give equal bound sums.
pub proof fn lemma_sums_same_config(a: Seq<Column>, b: Seq<Column>)
    requires
        a.len() == b.len(),
        forall|i: int| 0 <= i < a.len() ==> same_config(#[trigger] a[i], #[trigger] b[i]),
    ensures
        sum_min(a) == sum_min(b),
        sum_max(a) == sum_max(b),
    decreases a.len(),
{
    if a.len() > 0 {
        assert(same_config(a.last(), b.last()));
        lemma_sums_same_config(a.drop_last(), b.drop_last());
    }
}

/// A clamped family whose width sum reaches the sum of the upper bounds has
/// every width at its upper bound; likewise at the lower bounds.
pub proof fn lemma_sum_saturated(s: Seq<Column>)
    requires
        forall|i: int| 0 <= i < s.len() ==> col_wf(#[trigger] s[i]) && col_clamped(s[i]),
    ensures
        sum_cur(s) == sum_max(s) ==> forall|i: int|
            0 <= i < s.len() ==> #[trigger] s[i].current == s[i].max,
        sum_cur(s) == sum_min(s) ==> forall|i: int|
            0 <= i < s.len() ==> #[trigger] s[i].current == s[i].min,
    decreases s.len(),
{
    if s.len() > 0 {
        let t = s.drop_last();
        assert(forall|i: int| 0 <= i < t.len() ==> col_wf(#[trigger] t[i]) && col_clamped(t[i]));
        lemma_sum_saturated(t);
        lemma_sum_facts(t);
        if sum_cur(s) == sum_max(s) {
            assert(sum_cur(t) == sum_max(t) && s.last().current == s.last().max);
            assert forall|i: int| 0 <= i < s.len() implies #[trigger] s[i].current == s[i].max by {
                if i < s.len() - 1 {
                    assert(t[i] == s[i]);
                }
            }
        }
        if sum_cur(s) == sum_min(s) {
            assert(sum_cur(t) == sum_min(t) && s.last().current == s.last().min);
            assert forall|i: int| 0 <= i < s.len() implies #[trigger] s[i].current == s[i].min by {
                if i < s.len() - 1 {
                    assert(t[i] == s[i]);
                }
            }
        }
    }
}

/// With identical columns the width sum and the room are uniform multiples.
pub proof fn lemma_all_same_sums(s: Seq<Column>, grow: bool)
    requires
        all_same(s),
        s.len() > 0,
    ensures
        sum_cur(s) == s.len() * s[0].current,
        sum_room(s, grow) == s.len() * room_contrib(s[0], grow),
        is_active(s[0], grow) ==> count_active(s, grow) == s.len(),
        !is_active(s[0], grow) ==> count_active(s, grow) == 0,
    decreases s.len(),
{
    if s.len() == 1 {
        assert(s.drop_last().len() == 0);
        assert(s.last() == s[0]);
        assert(sum_cur(s.drop_last()) == 0);
        assert(sum_room(s.drop_last(), grow) == 0);
        assert(count_active(s.drop_last(), grow) == 0);
        assert(sum_cur(s) == s[0].current);
        assert(1 * s[0].current == s[0].current) by (nonlinear_arith);
        assert(1 * room_contrib(s[0], grow) == room_contrib(s[0], grow)) by (nonlinear_arith);
    } else {
        let t = s.drop_last();
        assert(all_same(t));
        lemma_all_same_sums(t, grow);
        assert(s.last().current == s[0].current && s.last().min == s[0].min && s.last().max
            == s[0].max);
        assert((s.len() - 1) * s[0].current + s[0].current == s.len() * s[0].current)
            by (nonlinear_arith);
        assert((s.len() - 1) * room_contrib(s[0], grow) + room_contrib(s[0], grow) == s.len()
            * room_contrib(s[0], grow)) by (nonlinear_arith);
    }
}

/// Saturation law: after a pass whose width sum equals the target clamped to
/// the feasible interval, a target at or beyond a bound sum puts every single
/// width at that bound.
pub proof fn lemma_auto_size_saturates(s: Seq<Column>, target: int)
    requires
        forall|i: int| 0 <= i < s.len() ==> col_wf(#[trigger] s[i]) && col_clamped(s[i]),
        s.len() > 0,
        sum_cur(s) == clamp_spec(target, sum_min(s), sum_max(s)),
    ensures
        target >= sum_max(s) ==> forall|i: int|
            0 <= i < s.len() ==> #[trigger] s[i].current == s[i].max,
        target <= sum_min(s) ==> forall|i: int|
            0 <= i < s.len() ==> #[trigger] s[i].current == s[i].min,
{
    lemma_sum_facts(s);
    lemma_sum_saturated(s);
}

/// Idempotence law: the outcome of one resize pass satisfies exactly the
/// fixed-point condition under which a further pass with the same target
/// returns its input unchanged (see the corresponding clause of
/// [`Column::auto_size`]).
pub proof fn lemma_auto_size_idempotent(before: Seq<Column>, after: Seq<Column>, target: int)
    requires
        after.len() == before.len(),
        before.len() > 0,
        forall|i: int| 0 <= i < after.len() ==> same_config(#[trigger] after[i], before[i]),
        forall|i: int| 0 <= i < after.len() ==> col_wf(#[trigger] after[i]) && col_clamped(after[i]),
        sum_cur(after) == clamp_spec(target, sum_min(before), sum_max(before)),
    ensures
        forall|i: int| 0 <= i < after.len() ==> col_clamped(#[trigger] after[i]),
        sum_cur(after) == clamp_spec(target, sum_min(after), sum_max(after)),
{
    lemma_sums_same_config(after, before);
}

impl Column {
    /// Resize the columns so their current widths sum to `target_width`,
    /// each width held inside its own `[min, max]` range.
    ///
    /// The resulting width sum is exactly `target_width` clamped to the
    /// feasible interval `[sum of mins, sum of maxes]`, and the change is
    /// distributed in the even-level shape of [`evenly_leveled`]: one common
    /// level moves every width toward its bound, columns with the least room
    /// saturate at their bound, and an indivisible remainder goes one pixel
    /// at a time to the leading columns that still have room. A family
    /// already at the fixed point comes back unchanged, so a second pass
    /// with the same target returns identical widths, and identical columns
    /// receive identical widths whenever the required change divides evenly
    /// among them.
    pub fn auto_size(columns: &mut Vec<Column>, target_width: i64)
        requires
            old(columns)@.len() <= MAX_COLS,
            forall|i: int| 0 <= i < old(columns)@.len() ==> col_wf(#[trigger] old(columns)@[i]),
            0 <= target_width <= MAX_WIDTH * (MAX_COLS as i64),
        ensures
            final(columns)@.len() == old(columns)@.len(),
            forall|i: int|
                0 <= i < final(columns)@.len() ==> same_config(
                    #[trigger] final(columns)@[i],
                    old(columns)@[i],
                ),
            forall|i: int|
                0 <= i < final(columns)@.len() ==> col_wf(#[trigger] final(columns)@[i])
                    && col_clamped(final(columns)@[i]),
            sum_min(final(columns)@) == sum_min(old(columns)@),
            sum_max(final(columns)@) == sum_max(old(columns)@),
            old(columns)@.len() > 0 ==> sum_cur(final(columns)@) == clamp_spec(
                target_width as int,
                sum_min(old(columns)@),
                sum_max(old(columns)@),
            ),
            (forall|i: int|
                0 <= i < old(columns)@.len() ==> col_clamped(#[trigger] old(columns)@[i]))
                && sum_cur(old(columns)@) == clamp_spec(
                target_width as int,
                sum_min(old(columns)@),
                sum_max(old(columns)@),
            ) && old(columns)@.len() > 0 ==> final(columns)@ == old(columns)@,
            old(columns)@.len() > 0 && all_same(old(columns)@) && (target_width
                - old(columns)@.len() * clamp_spec(
                old(columns)@[0].current as int,
                old(columns)@[0].min as int,
                old(columns)@[0].max as int,
            )) % (old(columns)@.len() as int) == 0 ==> (forall|i: int, j: int|
                0 <= i < final(columns)@.len() && 0 <= j < final(columns)@.len()
                    ==> #[trigger] final(columns)@[i].current
                    == #[trigger] final(columns)@[j].current),
            sum_cur(clamp_cols(old(columns)@)) <= target_width ==> forall|i: int|
                0 <= i < final(columns)@.len() ==> #[trigger] final(columns)@[i].current
                    >= clamp_col(old(columns)@[i]).current,
            sum_cur(clamp_cols(old(columns)@)) >= target_width ==> forall|i: int|
                0 <= i < final(columns)@.len() ==> #[trigger] final(columns)@[i].current
                    <= clamp_col(old(columns)@[i]).current,
            ({
                let base = clamp_cols(old(columns)@);
                &&& (sum_cur(base) <= target_width ==> exists|level: int|
                    #[trigger] evenly_leveled(base, final(columns)@, level, true))
                &&& (sum_cur(base) >= target_width ==> exists|level: int|
                    #[trigger] evenly_leveled(base, final(columns)@, level, false))
            }),
            old(columns)@.len() == 0 ==> final(columns)@ == old(columns)@,
    {
        let n = columns.len();
        if n == 0 {
            proof {
                assert(evenly_leveled(clamp_cols(columns@), columns@, 0, true));
                assert(evenly_leveled(clamp_cols(columns@), columns@, 0, false));
            }
            return ;
        }
        let ghost s0 = columns@;
        let ghost fair_hyp = all_same(s0) && (target_width - s0.len() * clamp_spec(
            s0[0].current as int,
            s0[0].min as int,
            s0[0].max as int,
        )) % (s0.len() as int) == 0;
        // Clamp every width into its range.
        let mut i: usize = 0;
        while i < n
            invariant
                n == columns@.len() == s0.len(),
                n <= MAX_COLS,
                i <= n,
                forall|j: int| i <= j < n ==> columns@[j] == s0[j],
                forall|j: int| 0 <= j < n ==> same_config(#[trigger] columns@[j], s0[j]),
                forall|j: int| 0 <= j < n ==> col_wf(#[trigger] columns@[j]),
                forall|j: int|
                    0 <= j < i ==> #[trigger] columns@[j].current == clamp_spec(
                        s0[j].current as int,
                        s0[j].min as int,
                        s0[j].max as int,
                    ),
            decreases n - i,
        {
            let c = columns[i];
            proof {
                assert(c == s0[i as int]);
                assert(col_wf(s0[i as int]));
            }
            let w = crate::clamp_i64(c.current, c.min, c.max);
            columns[i] = Column { current: w, ..c };
            i = i + 1;
        }
        let ghost sc = columns@;
        proof {
            assert(forall|j: int| 0 <= j < n ==> col_clamped(#[trigger] columns@[j]));
            lemma_sums_same_config(sc, s0);
            assert forall|j: int| 0 <= j < n implies sc[j] == clamp_cols(s0)[j] by {
                assert(clamp_cols(s0)[j] == clamp_col(s0[j]));
            }
            assert(sc =~= clamp_cols(s0));
            assert(sc == clamp_cols(s0));
            if forall|j: int| 0 <= j < n ==> col_clamped(#[trigger] s0[j]) {
                assert forall|j: int| 0 <= j < n implies sc[j] == s0[j] by {
                    assert(sc[j].current == clamp_spec(
                        s0[j].current as int,
                        s0[j].min as int,
                        s0[j].max as int,
                    ));
                    assert(same_config(sc[j], s0[j]));
                }
                assert(sc =~= s0);
            }
            if all_same(s0) {
                assert forall|x: int, y: int|
                    0 <= x < n && 0 <= y < n implies #[trigger] sc[x].current
                    == #[trigger] sc[y].current by {
                    assert(s0[x].current == s0[y].current && s0[x].min == s0[y].min && s0[x].max
                        == s0[y].max);
                }
                assert(all_same(sc));
                assert(sc[0].current == clamp_spec(
                    s0[0].current as int,
                    s0[0].min as int,
                    s0[0].max as int,
                ));
            }
        }
        // Accumulate the bound sums and the current width sum.
        let mut smin: i64 = 0;
        let mut smax: i64 = 0;
        let mut scur: i64 = 0;
        let mut i: usize = 0;
        while i < n
            invariant
                n == columns@.len(),
                n <= MAX_COLS,
                columns@ == sc,
                i <= n,
                forall|j: int|
                    0 <= j < n ==> col_wf(#[trigger] columns@[j]) && col_clamped(columns@[j]),
                smin as int == sum_min(sc.subrange(0, i as int)),
                smax as int == sum_max(sc.subrange(0, i as int)),
                scur as int == sum_cur(sc.subrange(0, i as int)),
                0 <= smin <= scur <= smax,
                smax as int <= (i as int) * MAX_WIDTH,
            decreases n - i,
        {
            let c = columns[i];
            proof {
                assert(c == sc[i as int]);
                assert(col_wf(sc[i as int]) && col_clamped(sc[i as int]));
                assert(sc.subrange(0, i as int + 1).drop_last() =~= sc.subrange(0, i as int));
                assert(sc.subrange(0, i as int + 1).last() == sc[i as int]);
                assert((i as int) * MAX_WIDTH + MAX_WIDTH == (i as int + 1) * MAX_WIDTH)
                    by (nonlinear_arith);
            }
            smin = smin + c.min;
            smax = smax + c.max;
            scur = scur + c.current;
            i = i + 1;
        }
        proof {
            assert(sc.subrange(0, n as int) =~= sc);
            assert(smin as int == sum_min(sc) && smax as int == sum_max(sc) && scur as int
                == sum_cur(sc));
            if fair_hyp {
                lemma_all_same_sums(sc, true);
                lemma_all_same_sums(sc, false);
            }
        }
        if scur == target_width {
            proof {
                assert forall|i: int| 0 <= i < n implies (#[trigger] sc[i]).current
                    == leveled_width(sc[i], 0, true) && sc[i].current == leveled_width(
                    sc[i],
                    0,
                    false,
                ) by {
                    assert(col_clamped(sc[i]));
                }
                assert(evenly_leveled(clamp_cols(s0), columns@, 0, true));
                assert(evenly_leveled(clamp_cols(s0), columns@, 0, false));
            }
            return ;
        }
        let ghost old_fixed = (forall|j: int| 0 <= j < n ==> col_clamped(#[trigger] s0[j]))
            && sum_cur(s0) == clamp_spec(target_width as int, sum_min(s0), sum_max(s0));
        if scur < target_width {
            if smax <= scur {
                proof {
                    assert forall|i: int| 0 <= i < n implies (#[trigger] sc[i]).current
                        == leveled_width(sc[i], 0, true) by {
                        assert(col_clamped(sc[i]));
                    }
                    assert(evenly_leveled(clamp_cols(s0), columns@, 0, true));
                }
                return ;
            }
            let delta = target_width - scur;
            let room_total = smax - scur;
            let d = if delta <= room_total {
                delta
            } else {
                room_total
            };
            proof {
                lemma_sum_facts(sc);
                assert(d as int <= sum_room(sc, true));
                if old_fixed {
                    assert(false);
                }
                if fair_hyp {
                    assert(scur as int == n as int * sc[0].current);
                    assert(delta as int % (n as int) == 0);
                    assert(room_total as int == n as int * room_contrib(sc[0], true));
                    vstd::arithmetic::div_mod::lemma_mod_multiples_basic(
                        room_contrib(sc[0], true),
                        n as int,
                    );
                    assert(n as int * room_contrib(sc[0], true) == room_contrib(sc[0], true)
                        * (n as int)) by (nonlinear_arith);
                    assert(room_total as int % (n as int) == 0);
                    assert(d as int % (n as int) == 0);
                }
            }
            distribute(columns, d, true);
            proof {
                lemma_sums_same_config(columns@, s0);
            }
        } else {
            if scur <= smin {
                proof {
                    assert forall|i: int| 0 <= i < n implies (#[trigger] sc[i]).current
                        == leveled_width(sc[i], 0, false) by {
                        assert(col_clamped(sc[i]));
                    }
                    assert(evenly_leveled(clamp_cols(s0), columns@, 0, false));
                }
                return ;
            }
            let delta = scur - target_width;
            let room_total = scur - smin;
            let d = if delta <= room_total {
                delta
            } else {
                room_total
            };
            proof {
                lemma_sum_facts(sc);
                assert(d as int <= sum_room(sc, false));
                if old_fixed {
                    assert(false);
                }
                if fair_hyp {
                    assert(scur as int == n as int * sc[0].current);
                    let t = target_width - n as int * sc[0].current;
                    assert(t % (n as int) == 0);
                    vstd::arithmetic::div_mod::lemma_fundamental_div_mod(t, n as int);
                    vstd::arithmetic::div_mod::lemma_mod_multiples_basic(
                        -(t / (n as int)),
                        n as int,
                    );
                    assert(delta as int == (-(t / (n as int))) * (n as int)) by (nonlinear_arith)
                        requires
                            t == (n as int) * (t / (n as int)),
                            delta as int == -t,
                    ;
                    assert(delta as int % (n as int) == 0);
                    assert(room_total as int == n as int * room_contrib(sc[0], false));
                    vstd::arithmetic::div_mod::lemma_mod_multiples_basic(
                        room_contrib(sc[0], false),
                        n as int,
                    );
                    assert(n as int * room_contrib(sc[0], false) == room_contrib(sc[0], false)
                        * (n as int)) by (nonlinear_arith);
                    assert(room_total as int % (n as int) == 0);
                    assert(d as int % (n as int) == 0);
                }
            }
            distribute(columns, d, false);
            proof {
                lemma_sums_same_config(columns@, s0);
            }
        }
    }
}

} // verus!
