//! Column kernels: what the five reductions and the row filter compute on the
//! cells of one column, and the calls into `polars_core` that compute them on
//! nullable 64-bit integers.

use vstd::prelude::*;
use polars_core::prelude::ChunkFilter;
use polars_core::prelude::Int64Chunked;
use polars_core::prelude::BooleanChunked;
use polars_core::prelude::IntoSeries;
use polars_core::prelude::NewChunkedArray;

verus! {

/// What a cell adds to a sum: its value, or nothing when it is null.
pub open spec fn cell_value(cell: Option<i64>) -> int {
    match cell {
        Some(v) => v as int,
        None => 0,
    }
}

/// The mathematical sum of the non-null cells.
pub open spec fn total(values: Seq<Option<i64>>) -> int
    decreases values.len(),
{
    if values.len() == 0 {
        0
    } else {
        total(values.drop_last()) + cell_value(values.last())
    }
}

/// Some cell is not null.
pub open spec fn has_value(values: Seq<Option<i64>>) -> bool {
    exists|i: int| 0 <= i < values.len() && (#[trigger] values[i]).is_some()
}

/// Every running sum, taken front to back, fits in 64 bits.
pub open spec fn sums_fit(values: Seq<Option<i64>>) -> bool {
    forall|k: int|
        0 <= k <= values.len() ==> i64::MIN <= #[trigger] total(values.take(k)) <= i64::MAX
}

/// The sum of a column: null when no cell has a value.
pub open spec fn sum_of(values: Seq<Option<i64>>) -> Option<i64> {
    if has_value(values) {
        Some(total(values) as i64)
    } else {
        None
    }
}

/// The smaller of two cells, a null counting as absent.
pub open spec fn lesser(a: Option<i64>, b: Option<i64>) -> Option<i64> {
    match (a, b) {
        (None, _) => b,
        (_, None) => a,
        (Some(x), Some(y)) => if y < x { b } else { a },
    }
}

/// The larger of two cells, a null counting as absent.
pub open spec fn greater(a: Option<i64>, b: Option<i64>) -> Option<i64> {
    match (a, b) {
        (None, _) => b,
        (_, None) => a,
        (Some(x), Some(y)) => if y > x { b } else { a },
    }
}

/// The least non-null cell: null when no cell has a value.
pub open spec fn min_of(values: Seq<Option<i64>>) -> Option<i64>
    decreases values.len(),
{
    if values.len() == 0 {
        None
    } else {
        lesser(min_of(values.drop_last()), values.last())
    }
}

/// The greatest non-null cell: null when no cell has a value.
pub open spec fn max_of(values: Seq<Option<i64>>) -> Option<i64>
    decreases values.len(),
{
    if values.len() == 0 {
        None
    } else {
        greater(max_of(values.drop_last()), values.last())
    }
}

/// The first `n` cells, or all of them when there are fewer.
pub open spec fn head_of<A>(values: Seq<A>, n: nat) -> Seq<A> {
    if n <= values.len() {
        values.take(n as int)
    } else {
        values
    }
}

/// The last `n` cells, or all of them when there are fewer.
pub open spec fn tail_of<A>(values: Seq<A>, n: nat) -> Seq<A> {
    if n <= values.len() {
        values.skip(values.len() - n)
    } else {
        values
    }
}

/// The cells whose row the mask selects, in row order.
pub open spec fn kept<A>(values: Seq<A>, mask: Seq<bool>) -> Seq<A>
    decreases values.len(),
{
    if values.len() == 0 {
        Seq::empty()
    } else {
        let rest = kept(values.drop_last(), mask);
        if mask[values.len() - 1] {
            rest.push(values.last())
        } else {
            rest
        }
    }
}

/// The sum of two columns laid end to end is the sum of their sums.
pub proof fn lemma_total_concat(a: Seq<Option<i64>>, b: Seq<Option<i64>>)
    ensures
        total(a + b) == total(a) + total(b),
    decreases b.len(),
{
    if b.len() == 0 {
        assert(a + b =~= a);
    } else {
        lemma_total_concat(a, b.drop_last());
        assert((a + b).drop_last() =~= a + b.drop_last());
    }
}

/// A column without a value sums to zero.
pub proof fn lemma_total_without_value(a: Seq<Option<i64>>)
    requires
        !has_value(a),
    ensures
        total(a) == 0,
    decreases a.len(),
{
    if a.len() > 0 {
        assert(a[a.len() - 1].is_none());
        assert forall|i: int| 0 <= i < a.drop_last().len() implies (
        #[trigger] a.drop_last()[i]).is_none() by {
            assert(a[i].is_none());
        }
        lemma_total_without_value(a.drop_last());
    }
}

/// Two columns laid end to end hold a value exactly when one of them does.
pub proof fn lemma_has_value_concat(a: Seq<Option<i64>>, b: Seq<Option<i64>>)
    ensures
        has_value(a + b) <==> has_value(a) || has_value(b),
{
    if has_value(a) {
        let i = choose|i: int| 0 <= i < a.len() && (#[trigger] a[i]).is_some();
        assert((a + b)[i].is_some());
    }
    if has_value(b) {
        let i = choose|i: int| 0 <= i < b.len() && (#[trigger] b[i]).is_some();
        assert((a + b)[a.len() + i].is_some());
    }
    if has_value(a + b) {
        let i = choose|i: int| 0 <= i < (a + b).len() && (#[trigger] (a + b)[i]).is_some();
        if i < a.len() {
            assert(a[i].is_some());
        } else {
            assert(b[i - a.len()].is_some());
        }
    }
}

/// Taking the smaller of cells does not depend on how they are grouped.
pub proof fn lemma_lesser_groups(a: Option<i64>, b: Option<i64>, c: Option<i64>)
    ensures
        lesser(lesser(a, b), c) == lesser(a, lesser(b, c)),
{
}

/// Taking the larger of cells does not depend on how they are grouped.
pub proof fn lemma_greater_groups(a: Option<i64>, b: Option<i64>, c: Option<i64>)
    ensures
        greater(greater(a, b), c) == greater(a, greater(b, c)),
{
}

/// The minimum of two columns laid end to end is the smaller of their minima.
pub proof fn lemma_min_concat(a: Seq<Option<i64>>, b: Seq<Option<i64>>)
    ensures
        min_of(a + b) == lesser(min_of(a), min_of(b)),
    decreases b.len(),
{
    if b.len() == 0 {
        assert(a + b =~= a);
    } else {
        lemma_min_concat(a, b.drop_last());
        assert((a + b).drop_last() =~= a + b.drop_last());
        lemma_lesser_groups(min_of(a), min_of(b.drop_last()), b.last());
    }
}

/// The maximum of two columns laid end to end is the larger of their maxima.
pub proof fn lemma_max_concat(a: Seq<Option<i64>>, b: Seq<Option<i64>>)
    ensures
        max_of(a + b) == greater(max_of(a), max_of(b)),
    decreases b.len(),
{
    if b.len() == 0 {
        assert(a + b =~= a);
    } else {
        lemma_max_concat(a, b.drop_last());
        assert((a + b).drop_last() =~= a + b.drop_last());
        lemma_greater_groups(max_of(a), max_of(b.drop_last()), b.last());
    }
}

/// The minimum is null exactly when the column holds no value; otherwise it is
/// a cell of the column that no other value is below.
pub proof fn law_min_is_least(values: Seq<Option<i64>>)
    ensures
        min_of(values).is_none() <==> !has_value(values),
        min_of(values).is_some() ==> exists|i: int|
            0 <= i < values.len() && #[trigger] values[i] == min_of(values),
        forall|j: int|
            0 <= j < values.len() && (#[trigger] values[j]).is_some() ==> min_of(values).is_some()
                && min_of(values).unwrap() <= values[j].unwrap(),
    decreases values.len(),
{
    if values.len() > 0 {
        let init = values.drop_last();
        law_min_is_least(init);
        lemma_has_value_concat(init, seq![values.last()]);
        assert(init + seq![values.last()] =~= values);
        assert(has_value(seq![values.last()]) <==> values.last().is_some()) by {
            if values.last().is_some() {
                assert(seq![values.last()][0].is_some());
            }
        }
        if min_of(values).is_some() {
            if min_of(values) == values.last() {
                assert(values[values.len() - 1] == min_of(values));
            } else {
                let i = choose|i: int| 0 <= i < init.len() && #[trigger] init[i] == min_of(init);
                assert(values[i] == min_of(values));
            }
        }
        assert forall|j: int| 0 <= j < values.len() && (#[trigger] values[j]).is_some() implies min_of(
            values,
        ).is_some() && min_of(values).unwrap() <= values[j].unwrap() by {
            if j < init.len() {
                assert(init[j].is_some());
            }
        }
    }
}

/// The maximum is null exactly when the column holds no value; otherwise it is
/// a cell of the column that no other value is above.
pub proof fn law_max_is_greatest(values: Seq<Option<i64>>)
    ensures
        max_of(values).is_none() <==> !has_value(values),
        max_of(values).is_some() ==> exists|i: int|
            0 <= i < values.len() && #[trigger] values[i] == max_of(values),
        forall|j: int|
            0 <= j < values.len() && (#[trigger] values[j]).is_some() ==> max_of(values).is_some()
                && max_of(values).unwrap() >= values[j].unwrap(),
    decreases values.len(),
{
    if values.len() > 0 {
        let init = values.drop_last();
        law_max_is_greatest(init);
        lemma_has_value_concat(init, seq![values.last()]);
        assert(init + seq![values.last()] =~= values);
        assert(has_value(seq![values.last()]) <==> values.last().is_some()) by {
            if values.last().is_some() {
                assert(seq![values.last()][0].is_some());
            }
        }
        if max_of(values).is_some() {
            if max_of(values) == values.last() {
                assert(values[values.len() - 1] == max_of(values));
            } else {
                let i = choose|i: int| 0 <= i < init.len() && #[trigger] init[i] == max_of(init);
                assert(values[i] == max_of(values));
            }
        }
        assert forall|j: int| 0 <= j < values.len() && (#[trigger] values[j]).is_some() implies max_of(
            values,
        ).is_some() && max_of(values).unwrap() >= values[j].unwrap() by {
            if j < init.len() {
                assert(init[j].is_some());
            }
        }
    }
}

/// The first row of two columns laid end to end is the first row of the first
/// column that has one.
pub proof fn lemma_head_concat<A>(a: Seq<A>, b: Seq<A>)
    ensures
        head_of(a + b, 1) == if a.len() > 0 {
            head_of(a, 1)
        } else {
            head_of(b, 1)
        },
{
    if a.len() > 0 {
        assert(head_of(a + b, 1) =~= head_of(a, 1));
    } else {
        assert(a + b =~= b);
    }
}

/// The last row of two columns laid end to end is the last row of the last
/// column that has one.
pub proof fn lemma_tail_concat<A>(a: Seq<A>, b: Seq<A>)
    ensures
        tail_of(a + b, 1) == if b.len() > 0 {
            tail_of(b, 1)
        } else {
            tail_of(a, 1)
        },
{
    if b.len() > 0 {
        assert(tail_of(a + b, 1) =~= tail_of(b, 1));
    } else {
        assert(a + b =~= a);
    }
}

/// Filtering two columns laid end to end, by their masks laid end to end,
/// filters each by its own mask.
pub proof fn lemma_kept_concat<A>(a: Seq<A>, ma: Seq<bool>, b: Seq<A>, mb: Seq<bool>)
    requires
        a.len() == ma.len(),
        b.len() == mb.len(),
    ensures
        kept(a + b, ma + mb) == kept(a, ma) + kept(b, mb),
    decreases b.len(),
{
    if b.len() == 0 {
        assert(a + b =~= a);
        assert(ma + mb =~= ma);
        assert(kept(a, ma) + kept(b, mb) =~= kept(a, ma));
    } else {
        lemma_kept_prefix(a + b.drop_last(), ma + mb.drop_last(), ma + mb);
        lemma_kept_prefix(b.drop_last(), mb.drop_last(), mb);
        lemma_kept_concat(a, ma, b.drop_last(), mb.drop_last());
        assert((a + b).drop_last() =~= a + b.drop_last());
        assert((ma + mb)[(a + b).len() - 1] == mb[b.len() - 1]);
        if mb[b.len() - 1] {
            assert(kept(a + b, ma + mb) =~= kept(a, ma) + kept(b, mb));
        }
    }
}

/// How many rows a mask keeps depends on the mask alone.
pub proof fn lemma_kept_len<A>(a: Seq<A>, b: Seq<A>, mask: Seq<bool>)
    requires
        a.len() == b.len(),
    ensures
        kept(a, mask).len() == kept(b, mask).len(),
        kept(a, mask).len() <= a.len(),
    decreases a.len(),
{
    if a.len() > 0 {
        lemma_kept_len(a.drop_last(), b.drop_last(), mask);
    }
}

/// Only the mask entries beside the cells count.
pub proof fn lemma_kept_prefix<A>(values: Seq<A>, mask: Seq<bool>, longer: Seq<bool>)
    requires
        values.len() <= mask.len() <= longer.len(),
        forall|i: int| 0 <= i < values.len() ==> mask[i] == longer[i],
    ensures
        kept(values, mask) == kept(values, longer),
    decreases values.len(),
{
    if values.len() > 0 {
        lemma_kept_prefix(values.drop_last(), mask, longer);
    }
}

/// Calls `sum_as_series` of `polars_core` on a one-chunk `Int64Chunked` built from
/// `values`. Claimed: the result has one row, which holds the sum of the non-null
/// cells, or null when there is none. The kernel adds the cells front to back
/// with `+`, so the running sums must fit.
#[verifier::external_body]
pub(crate) fn sum_as_series(values: &Vec<Option<i64>>) -> (r: Vec<Option<i64>>)
    requires
        sums_fit(values@),
    ensures
        r@ == seq![sum_of(values@)],
{
    let series = Int64Chunked::new_from_opt_slice("", values.as_slice()).into_series();
    let reduced = series.sum_as_series();
    reduced.i64().unwrap().into_iter().collect()
}

/// Calls `min_as_series` of `polars_core` on a one-chunk `Int64Chunked` built from
/// `values`. Claimed: the result has one row, which holds the least non-null
/// cell, or null when there is none.
#[verifier::external_body]
pub(crate) fn min_as_series(values: &Vec<Option<i64>>) -> (r: Vec<Option<i64>>)
    ensures
        r@ == seq![min_of(values@)],
{
    let series = Int64Chunked::new_from_opt_slice("", values.as_slice()).into_series();
    let reduced = series.min_as_series();
    reduced.i64().unwrap().into_iter().collect()
}

/// Calls `max_as_series` of `polars_core` on a one-chunk `Int64Chunked` built from
/// `values`. Claimed: the result has one row, which holds the greatest non-null
/// cell, or null when there is none.
#[verifier::external_body]
pub(crate) fn max_as_series(values: &Vec<Option<i64>>) -> (r: Vec<Option<i64>>)
    ensures
        r@ == seq![max_of(values@)],
{
    let series = Int64Chunked::new_from_opt_slice("", values.as_slice()).into_series();
    let reduced = series.max_as_series();
    reduced.i64().unwrap().into_iter().collect()
}

/// Calls `Series::head` of `polars_core` with `Some(length)`. Claimed: the result
/// holds the first `length` cells, or every cell when there are fewer.
#[verifier::external_body]
pub(crate) fn head(values: &Vec<Option<i64>>, length: usize) -> (r: Vec<Option<i64>>)
    ensures
        r@ == head_of(values@, length as nat),
{
    let series = Int64Chunked::new_from_opt_slice("", values.as_slice()).into_series();
    let first = series.head(Some(length));
    first.i64().unwrap().into_iter().collect()
}

/// Calls `Series::tail` of `polars_core` with `Some(length)`. Claimed: the result
/// holds the last `length` cells, or every cell when there are fewer.
#[verifier::external_body]
pub(crate) fn tail(values: &Vec<Option<i64>>, length: usize) -> (r: Vec<Option<i64>>)
    ensures
        r@ == tail_of(values@, length as nat),
{
    let series = Int64Chunked::new_from_opt_slice("", values.as_slice()).into_series();
    let last = series.tail(Some(length));
    last.i64().unwrap().into_iter().collect()
}

/// Calls `ChunkFilter::filter` of `polars_core` with a mask without nulls.
/// Claimed: for a mask as long as the column, the result holds the cells at the
/// rows where the mask is true, in row order.
#[verifier::external_body]
pub(crate) fn filter(values: &Vec<Option<i64>>, mask: &Vec<bool>) -> (r: Vec<Option<i64>>)
    requires
        mask@.len() == values@.len(),
    ensures
        r@ == kept(values@, mask@),
{
    let column = Int64Chunked::new_from_opt_slice("", values.as_slice());
    let selection = BooleanChunked::new_from_slice("", mask.as_slice());
    column.filter(&selection).unwrap().into_iter().collect()
}

/// Whether every running sum of the column fits in 64 bits.
pub fn running_sums_fit(values: &Vec<Option<i64>>) -> (r: bool)
    ensures
        r == sums_fit(values@),
{
    let mut acc: i64 = 0;
    let mut i: usize = 0;
    proof {
        assert(values@.take(0) =~= Seq::empty());
    }
    while i < values.len()
        invariant
            i <= values.len(),
            acc == total(values@.take(i as int)),
            forall|k: int| 0 <= k <= i ==> i64::MIN <= #[trigger] total(values@.take(k)) <= i64::MAX,
        decreases values.len() - i,
    {
        proof {
            assert(values@.take(i + 1).drop_last() =~= values@.take(i as int));
            assert(values@.take(i + 1).last() == values@[i as int]);
        }
        match values[i] {
            Some(v) => {
                match acc.checked_add(v) {
                    Some(next) => {
                        acc = next;
                    },
                    None => {
                        assert(total(values@.take(i + 1)) == acc + v);
                        return false;
                    },
                }
            },
            None => {},
        }
        i += 1;
    }
    true
}

} // verus!
