//! Cumulative offset tables, kept in `vec1`'s never-empty vector as a table
//! always holds at least its origin entry.

use vstd::prelude::*;

use vec1::Vec1;

use crate::columns::{col_clamped, col_wf, sum_cur, Column};
use crate::geom::MAX_COORD;
use crate::MAX_COLS;

verus! {

#[verifier::external_type_specification]
#[verifier::external_body]
#[verifier::reject_recursive_types(T)]
pub struct ExVec1<T>(Vec1<T>);

/// The entries an offset table holds, first to last.
pub uninterp spec fn vec1_elems(v: &Vec1<i64>) -> Seq<i64>;

/// Relies on `Vec1::with_capacity`: a fresh one-element vector holding
/// `first`.
#[verifier::external_body]
pub(crate) fn vec1_with_capacity(first: i64, capacity: usize) -> (v: Vec1<i64>)
    ensures
        vec1_elems(&v) == seq![first],
{
    Vec1::with_capacity(first, capacity)
}

/// Relies on `Vec1::push`: appends one element at the end.
#[verifier::external_body]
pub(crate) fn vec1_push(v: &mut Vec1<i64>, x: i64)
    ensures
        vec1_elems(final (v)) == vec1_elems(old(v)).push(x),
{
    v.push(x)
}

/// Relies on `Vec1::len`.
#[verifier::external_body]
pub(crate) fn vec1_len(v: &Vec1<i64>) -> (n: usize)
    ensures
        n == vec1_elems(v).len(),
{
    v.len()
}

/// Relies on `Vec1`'s `Index` impl, which indexes the inner vector.
#[verifier::external_body]
pub(crate) fn vec1_get(v: &Vec1<i64>, i: usize) -> (r: i64)
    requires
        i < vec1_elems(v).len(),
    ensures
        r == vec1_elems(v)[i as int],
{
    v[i]
}

/// Relies on `Vec1::last`: the final element, which always exists.
#[verifier::external_body]
pub(crate) fn vec1_last(v: &Vec1<i64>) -> (r: i64)
    requires
        vec1_elems(v).len() > 0,
    ensures
        r == vec1_elems(v).last(),
{
    *v.last()
}

/// A monotone offset table with bounded entries.
pub open spec fn offsets_wf(t: &Vec1<i64>) -> bool {
    &&& vec1_elems(t).len() > 0
    &&& forall|i: int, j: int|
        0 <= i <= j < vec1_elems(t).len() ==> #[trigger] vec1_elems(t)[i]
            <= #[trigger] vec1_elems(t)[j]
    &&& forall|i: int|
        0 <= i < vec1_elems(t).len() ==> -MAX_COORD <= #[trigger] vec1_elems(t)[i] <= MAX_COORD
}

/// Build the cumulative x-offset table of the columns: entry `0` is
/// `origin`, and entry `i + 1` adds column `i`'s width onto entry `i`.
pub fn build_col_offsets(columns: &Vec<Column>, origin: i64) -> (t: Vec1<i64>)
    requires
        columns@.len() <= MAX_COLS,
        forall|i: int|
            0 <= i < columns@.len() ==> col_wf(#[trigger] columns@[i]) && col_clamped(
                columns@[i],
            ),
        -MAX_COORD / 2 <= origin <= MAX_COORD / 2,
    ensures
        vec1_elems(&t).len() == columns@.len() + 1,
        forall|i: int|
            0 <= i <= columns@.len() ==> #[trigger] vec1_elems(&t)[i] == origin + sum_cur(
                columns@.subrange(0, i),
            ),
        offsets_wf(&t),
{
    let n = columns.len();
    let mut t = vec1_with_capacity(origin, n + 1);
    let mut x = origin;
    let mut i: usize = 0;
    proof {
        assert(columns@.subrange(0, 0) =~= Seq::<Column>::empty());
    }
    while i < n
        invariant
            n == columns@.len(),
            n <= MAX_COLS,
            forall|j: int|
                0 <= j < n ==> col_wf(#[trigger] columns@[j]) && col_clamped(columns@[j]),
            -MAX_COORD / 2 <= origin <= MAX_COORD / 2,
            i <= n,
            vec1_elems(&t).len() == i + 1,
            forall|j: int|
                0 <= j <= i ==> #[trigger] vec1_elems(&t)[j] == origin + sum_cur(
                    columns@.subrange(0, j),
                ),
            x as int == origin + sum_cur(columns@.subrange(0, i as int)),
            origin <= x,
            x as int <= origin + (i as int) * crate::MAX_WIDTH,
        decreases n - i,
    {
        let c = columns[i];
        proof {
            assert(col_wf(columns@[i as int]) && col_clamped(columns@[i as int]));
            assert(columns@.subrange(0, i as int + 1).drop_last() =~= columns@.subrange(
                0,
                i as int,
            ));
            assert(columns@.subrange(0, i as int + 1).last() == columns@[i as int]);
            assert((i as int) * crate::MAX_WIDTH + crate::MAX_WIDTH == (i as int + 1)
                * crate::MAX_WIDTH) by (nonlinear_arith);
            assert((i as int) * crate::MAX_WIDTH >= 0) by (nonlinear_arith)
                requires
                    i >= 0,
            ;
            assert((MAX_COLS as int) * crate::MAX_WIDTH + MAX_COORD / 2 < MAX_COORD);
            assert((i as int + 1) * crate::MAX_WIDTH <= (MAX_COLS as int) * crate::MAX_WIDTH)
                by (nonlinear_arith)
                requires
                    i as int + 1 <= MAX_COLS as int,
            ;
        }
        x = x + c.current;
        vec1_push(&mut t, x);
        i = i + 1;
    }
    proof {
        assert forall|a: int, b: int|
            0 <= a <= b < vec1_elems(&t).len() implies #[trigger] vec1_elems(&t)[a]
            <= #[trigger] vec1_elems(&t)[b] by {
        lemma_sum_cur_prefix_monotone(columns@, a, b);
        }
        assert forall|a: int| 0 <= a < vec1_elems(&t).len() implies -MAX_COORD <= #[trigger] vec1_elems(
            &t,
        )[a] <= MAX_COORD by {
            lemma_sum_cur_prefix_monotone(columns@, 0, a);
            lemma_sum_cur_prefix_monotone(columns@, a, columns@.len() as int);
            assert(vec1_elems(&t)[columns@.len() as int] == origin + sum_cur(
                columns@.subrange(0, columns@.len() as int),
            ));
            assert(x as int <= origin + (columns@.len() as int) * crate::MAX_WIDTH);
            assert(columns@.subrange(0, columns@.len() as int) =~= columns@);
            assert(vec1_elems(&t)[0] == origin + sum_cur(columns@.subrange(0, 0)));
            assert(columns@.subrange(0, 0) =~= Seq::<Column>::empty());
        }
    }
    t
}

/// Prefix sums of non-negative widths grow with the prefix length.
pub proof fn lemma_sum_cur_prefix_monotone(s: Seq<Column>, a: int, b: int)
    requires
        0 <= a <= b <= s.len(),
        forall|i: int| 0 <= i < s.len() ==> col_wf(#[trigger] s[i]) && col_clamped(s[i]),
    ensures
        sum_cur(s.subrange(0, a)) <= sum_cur(s.subrange(0, b)),
    decreases b - a,
{
    if a < b {
        lemma_sum_cur_prefix_monotone(s, a, b - 1);
        assert(s.subrange(0, b).drop_last() =~= s.subrange(0, b - 1));
        assert(s.subrange(0, b).last() == s[b - 1]);
        assert(col_wf(s[b - 1]) && col_clamped(s[b - 1]));
    }
}

} // verus!
