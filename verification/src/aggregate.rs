//! The five streaming reductions: one partial result per batch, and one final
//! result from the partial results of all batches.

use vstd::prelude::*;
use crate::cell::cells_of;
use crate::cell::from_ints;
use crate::cell::ints_of;
use crate::cell::to_ints;
use crate::cell::Cell;
use crate::column::Column;
use crate::column::ColumnView;
use crate::error::Error;
use crate::error::ErrorView;
use crate::kernels::has_value;
use crate::kernels::head_of;
use crate::kernels::lesser;
use crate::kernels::greater;
use crate::kernels::max_of;
use crate::kernels::min_of;
use crate::kernels::sum_of;
use crate::kernels::sums_fit;
use crate::kernels::tail_of;
use crate::kernels::total;
use crate::table::find_column;
use crate::table::Table;

verus! {

/// A reduction of one source column, with an optional name for its result.
#[derive(Debug, Clone, PartialEq, Eq)]
pub enum ScanAggregation {
    Sum { column: String, alias: Option<String> },
    Min { column: String, alias: Option<String> },
    Max { column: String, alias: Option<String> },
    First { column: String, alias: Option<String> },
    Last { column: String, alias: Option<String> },
}

/// An optional name as a sequence of characters.
pub open spec fn text_of(name: Option<String>) -> Option<Seq<char>> {
    match name {
        Some(n) => Some(n@),
        None => None,
    }
}

/// The rows of all parts, in the order of the parts.
pub open spec fn joined<A>(parts: Seq<Seq<A>>) -> Seq<A>
    decreases parts.len(),
{
    if parts.len() == 0 {
        Seq::empty()
    } else {
        joined(parts.drop_last()) + parts.last()
    }
}

impl ScanAggregation {
    /// The name of the source column.
    pub open spec fn source(&self) -> Seq<char> {
        match self {
            ScanAggregation::Sum { column, .. } => column@,
            ScanAggregation::Min { column, .. } => column@,
            ScanAggregation::Max { column, .. } => column@,
            ScanAggregation::First { column, .. } => column@,
            ScanAggregation::Last { column, .. } => column@,
        }
    }

    /// The name asked for the result, if any.
    pub open spec fn alias_name(&self) -> Option<Seq<char>> {
        match self {
            ScanAggregation::Sum { alias, .. } => text_of(*alias),
            ScanAggregation::Min { alias, .. } => text_of(*alias),
            ScanAggregation::Max { alias, .. } => text_of(*alias),
            ScanAggregation::First { alias, .. } => text_of(*alias),
            ScanAggregation::Last { alias, .. } => text_of(*alias),
        }
    }

    /// The name of the final result: the alias, or else the source column's.
    pub open spec fn output_name(&self) -> Seq<char> {
        match self.alias_name() {
            Some(a) => a,
            None => self.source(),
        }
    }

    /// What the reduction makes of integer cells: one row for a sum, a minimum
    /// or a maximum, the first or the last row, if there is one, else.
    pub open spec fn reduced_ints(&self, values: Seq<Option<i64>>) -> Seq<Option<i64>> {
        match self {
            ScanAggregation::Sum { .. } => seq![sum_of(values)],
            ScanAggregation::Min { .. } => seq![min_of(values)],
            ScanAggregation::Max { .. } => seq![max_of(values)],
            ScanAggregation::First { .. } => head_of(values, 1),
            ScanAggregation::Last { .. } => tail_of(values, 1),
        }
    }

    /// What the reduction makes of one column's cells. A sum, a minimum and a
    /// maximum are taken of the integers among them and are one row, which is
    /// null where there is no integer: so it is for a column of booleans or of
    /// strings. The first and the last row, if there is one, are taken of the
    /// cells as they are.
    pub open spec fn reduced(&self, values: Seq<Option<Cell>>) -> Seq<Option<Cell>> {
        match self {
            ScanAggregation::First { .. } => head_of(values, 1),
            ScanAggregation::Last { .. } => tail_of(values, 1),
            _ => cells_of(self.reduced_ints(ints_of(values))),
        }
    }

    /// Whether the reduction can be computed on these cells in 64 bits.
    pub open spec fn computable(&self, values: Seq<Option<Cell>>) -> bool {
        self is Sum ==> sums_fit(ints_of(values))
    }

    /// The partial result for one table: the reduction of the source column,
    /// under that column's name and type.
    pub open spec fn partial(&self, t: Seq<ColumnView>) -> Result<ColumnView, ErrorView> {
        match find_column(t, self.source()) {
            None => Err(ErrorView::ColumnNotFound(self.source())),
            Some(i) => if self.computable(t[i].values) {
                Ok(
                    ColumnView {
                        name: t[i].name,
                        dtype: t[i].dtype,
                        values: self.reduced(t[i].values),
                    },
                )
            } else {
                Err(ErrorView::Overflow)
            },
        }
    }

    /// The final result for the table of all partial results: the reduction of
    /// the source column, under the output name and that column's type.
    pub open spec fn finished(&self, t: Seq<ColumnView>) -> Result<ColumnView, ErrorView> {
        match find_column(t, self.source()) {
            None => Err(ErrorView::ColumnNotFound(self.source())),
            Some(i) => if self.computable(t[i].values) {
                Ok(
                    ColumnView {
                        name: self.output_name(),
                        dtype: t[i].dtype,
                        values: self.reduced(t[i].values),
                    },
                )
            } else {
                Err(ErrorView::Overflow)
            },
        }
    }

    /// The partial results of parts of integer cells, one per part.
    pub open spec fn partials_ints(&self, parts: Seq<Seq<Option<i64>>>) -> Seq<
        Seq<Option<i64>>,
    > {
        parts.map_values(|p: Seq<Option<i64>>| self.reduced_ints(p))
    }

    /// The partial results of the parts, one per part.
    pub open spec fn partials(&self, parts: Seq<Seq<Option<Cell>>>) -> Seq<Seq<Option<Cell>>> {
        parts.map_values(|p: Seq<Option<Cell>>| self.reduced(p))
    }

    /// The name of the source column.
    pub fn column_name(&self) -> (r: &String)
        ensures
            r@ == self.source(),
    {
        match self {
            ScanAggregation::Sum { column, .. } => column,
            ScanAggregation::Min { column, .. } => column,
            ScanAggregation::Max { column, .. } => column,
            ScanAggregation::First { column, .. } => column,
            ScanAggregation::Last { column, .. } => column,
        }
    }

    /// The name asked for the result, if any.
    pub fn alias(&self) -> (r: &Option<String>)
        ensures
            text_of(*r) == self.alias_name(),
    {
        match self {
            ScanAggregation::Sum { alias, .. } => alias,
            ScanAggregation::Min { alias, .. } => alias,
            ScanAggregation::Max { alias, .. } => alias,
            ScanAggregation::First { alias, .. } => alias,
            ScanAggregation::Last { alias, .. } => alias,
        }
    }

    /// The reduction of one column's cells, or `Overflow` when a running sum
    /// leaves the 64-bit range.
    pub fn reduce(&self, values: &Vec<Option<Cell>>) -> (r: Result<Vec<Option<Cell>>, Error>)
        ensures
            match r {
                Ok(cells) => self.computable(values@) && cells@ == self.reduced(values@),
                Err(e) => !self.computable(values@) && e@ == ErrorView::Overflow,
            },
    {
        match self {
            ScanAggregation::Sum { .. } => {
                let ints = to_ints(values);
                if crate::kernels::running_sums_fit(&ints) {
                    Ok(from_ints(&crate::kernels::sum_as_series(&ints)))
                } else {
                    Err(Error::Overflow)
                }
            },
            ScanAggregation::Min { .. } => {
                let ints = to_ints(values);
                Ok(from_ints(&crate::kernels::min_as_series(&ints)))
            },
            ScanAggregation::Max { .. } => {
                let ints = to_ints(values);
                Ok(from_ints(&crate::kernels::max_as_series(&ints)))
            },
            ScanAggregation::First { .. } => Ok(crate::cell::first_cells(values)),
            ScanAggregation::Last { .. } => Ok(crate::cell::last_cells(values)),
        }
    }

    /// The partial result for one batch's table: the reduction of the source
    /// column under that column's name. Fails when the table has
    /// no such column, or when a running sum overflows.
    pub fn evaluate_batch(&self, df: &Table) -> (r: Result<Column, Error>)
        ensures
            match self.partial(df@) {
                Ok(c) => r matches Ok(x) && x@ == c,
                Err(e) => r matches Err(x) && x@ == e,
            },
    {
        proof {
            crate::table::lemma_find_is_first(df@, self.source(), df@.len() as int);
        }
        match df.column(self.column_name()) {
            Err(e) => Err(e),
            Ok(column) => match self.reduce(&column.values) {
                Err(e) => Err(e),
                Ok(cells) => Ok(Column::new(column.name.clone(), column.dtype, cells)),
            },
        }
    }

    /// The final result for the table that holds the partial results of all
    /// batches: the reduction of the source column under the alias, or under
    /// the column's name without one. Fails as `evaluate_batch` does.
    pub fn finish(&self, df: &Table) -> (r: Result<Column, Error>)
        ensures
            match self.finished(df@) {
                Ok(c) => r matches Ok(x) && x@ == c,
                Err(e) => r matches Err(x) && x@ == e,
            },
    {
        proof {
            crate::table::lemma_find_is_first(df@, self.source(), df@.len() as int);
        }
        match df.column(self.column_name()) {
            Err(e) => Err(e),
            Ok(column) => match self.reduce(&column.values) {
                Err(e) => Err(e),
                Ok(cells) => {
                    let mut out = Column::new(column.name.clone(), column.dtype, cells);
                    match self.alias() {
                        Some(alias) => {
                            out.rename(alias);
                        },
                        None => {},
                    }
                    Ok(out)
                },
            },
        }
    }
}

/// The partial results of all but the last part are those of the parts
/// without the last.
proof fn lemma_partials_drop_last(agg: ScanAggregation, parts: Seq<Seq<Option<i64>>>)
    requires
        parts.len() > 0,
    ensures
        agg.partials_ints(parts).drop_last() == agg.partials_ints(parts.drop_last()),
        agg.partials_ints(parts).last() == agg.reduced_ints(parts.last()),
{
    assert(agg.partials_ints(parts).drop_last() =~= agg.partials_ints(parts.drop_last()));
}

/// The sums of the parts add up to the sum of all rows, and hold a value
/// exactly when some row does.
proof fn lemma_sums_add_up(agg: ScanAggregation, parts: Seq<Seq<Option<i64>>>)
    requires
        agg is Sum,
        forall|k: int|
            0 <= k < parts.len() ==> i64::MIN <= #[trigger] total(parts[k]) <= i64::MAX,
    ensures
        total(joined(agg.partials_ints(parts))) == total(joined(parts)),
        has_value(joined(agg.partials_ints(parts))) <==> has_value(joined(parts)),
    decreases parts.len(),
{
    if parts.len() > 0 {
        let init = parts.drop_last();
        let last = parts.last();
        assert forall|k: int| 0 <= k < init.len() implies i64::MIN <= #[trigger] total(init[k])
            <= i64::MAX by {
            assert(init[k] == parts[k]);
        }
        lemma_sums_add_up(agg, init);
        lemma_partials_drop_last(agg, parts);
        let one = seq![sum_of(last)];
        assert(agg.reduced_ints(last) == one);
        crate::kernels::lemma_total_concat(joined(agg.partials_ints(init)), one);
        crate::kernels::lemma_total_concat(joined(init), last);
        crate::kernels::lemma_has_value_concat(joined(agg.partials_ints(init)), one);
        crate::kernels::lemma_has_value_concat(joined(init), last);
        assert(i64::MIN <= total(parts[parts.len() - 1]) <= i64::MAX);
        assert(one.drop_last() =~= Seq::<Option<i64>>::empty());
        assert(total(one) == total(one.drop_last()) + crate::kernels::cell_value(one.last()));
        if has_value(last) {
            assert(one[0].is_some());
            assert(total(one) == total(last));
        } else {
            crate::kernels::lemma_total_without_value(last);
            assert(total(one) == 0);
            assert(!has_value(one)) by {
                if has_value(one) {
                    let i = choose|i: int| 0 <= i < one.len() && (#[trigger] one[i]).is_some();
                    assert(one[i] == sum_of(last));
                }
            }
        }
    }
}

/// The minimum of the parts' minima is the minimum of all rows, and likewise
/// for the maximum.
proof fn lemma_extremes_of_extremes(agg: ScanAggregation, parts: Seq<Seq<Option<i64>>>)
    ensures
        agg is Min ==> min_of(joined(agg.partials_ints(parts))) == min_of(joined(parts)),
        agg is Max ==> max_of(joined(agg.partials_ints(parts))) == max_of(joined(parts)),
    decreases parts.len(),
{
    if parts.len() > 0 {
        let init = parts.drop_last();
        let last = parts.last();
        lemma_extremes_of_extremes(agg, init);
        lemma_partials_drop_last(agg, parts);
        if agg is Min {
            let one = seq![min_of(last)];
            assert(one.drop_last() =~= Seq::<Option<i64>>::empty());
            assert(min_of(one) == lesser(min_of(one.drop_last()), one.last()));
            crate::kernels::lemma_min_concat(joined(agg.partials_ints(init)), one);
            crate::kernels::lemma_min_concat(joined(init), last);
        }
        if agg is Max {
            let one = seq![max_of(last)];
            assert(one.drop_last() =~= Seq::<Option<i64>>::empty());
            assert(max_of(one) == greater(max_of(one.drop_last()), one.last()));
            crate::kernels::lemma_max_concat(joined(agg.partials_ints(init)), one);
            crate::kernels::lemma_max_concat(joined(init), last);
        }
    }
}

/// On integer cells, a sum, a minimum or a maximum of the partial results is
/// the one of all rows.
proof fn lemma_reduce_int_partials(agg: ScanAggregation, parts: Seq<Seq<Option<i64>>>)
    requires
        agg is Sum || agg is Min || agg is Max,
        agg is Sum ==> (forall|k: int|
            0 <= k < parts.len() ==> i64::MIN <= #[trigger] total(parts[k]) <= i64::MAX),
    ensures
        agg.reduced_ints(joined(agg.partials_ints(parts))) == agg.reduced_ints(joined(parts)),
{
    if agg is Sum {
        lemma_sums_add_up(agg, parts);
    } else {
        lemma_extremes_of_extremes(agg, parts);
    }
}

/// The integers among the rows of all parts are those of each part, in the
/// order of the parts; and the integers among the partial results are the
/// partial results of the integers.
proof fn lemma_ints_of_parts(agg: ScanAggregation, parts: Seq<Seq<Option<Cell>>>)
    requires
        agg is Sum || agg is Min || agg is Max,
    ensures
        ints_of(joined(parts)) == joined(parts.map_values(|p: Seq<Option<Cell>>| ints_of(p))),
        ints_of(joined(agg.partials(parts))) == joined(
            agg.partials_ints(parts.map_values(|p: Seq<Option<Cell>>| ints_of(p))),
        ),
    decreases parts.len(),
{
    let iparts = parts.map_values(|p: Seq<Option<Cell>>| ints_of(p));
    if parts.len() > 0 {
        let init = parts.drop_last();
        let last = parts.last();
        lemma_ints_of_parts(agg, init);
        assert(iparts.drop_last() =~= init.map_values(|p: Seq<Option<Cell>>| ints_of(p)));
        assert(agg.partials(parts).drop_last() =~= agg.partials(init));
        assert(agg.partials_ints(iparts).drop_last() =~= agg.partials_ints(iparts.drop_last()));
        assert(ints_of(joined(init) + last) =~= ints_of(joined(init)) + ints_of(last));
        let one = agg.reduced(last);
        assert(ints_of(one) =~= agg.reduced_ints(ints_of(last)));
        assert(ints_of(joined(agg.partials(init)) + one) =~= ints_of(joined(agg.partials(init)))
            + ints_of(one));
    } else {
        assert(ints_of(joined(parts)) =~= joined(iparts));
        assert(ints_of(joined(agg.partials(parts))) =~= joined(agg.partials_ints(iparts)));
    }
}

/// A sum, a minimum or a maximum taken batch by batch and then over the
/// partial results is the one taken directly over all rows, however the rows
/// are split into batches. For a sum, the sum of the integers of each batch
/// must fit in 64 bits.
pub proof fn law_reduce_partials_is_reduce_all(agg: ScanAggregation, parts: Seq<Seq<Option<Cell>>>)
    requires
        agg is Sum || agg is Min || agg is Max,
        agg is Sum ==> (forall|k: int|
            0 <= k < parts.len() ==> i64::MIN <= #[trigger] total(ints_of(parts[k])) <= i64::MAX),
    ensures
        agg.reduced(joined(agg.partials(parts))) == agg.reduced(joined(parts)),
{
    let iparts = parts.map_values(|p: Seq<Option<Cell>>| ints_of(p));
    lemma_ints_of_parts(agg, parts);
    if agg is Sum {
        assert forall|k: int| 0 <= k < iparts.len() implies i64::MIN <= #[trigger] total(
            iparts[k],
        ) <= i64::MAX by {
            assert(iparts[k] == ints_of(parts[k]));
        }
    }
    lemma_reduce_int_partials(agg, iparts);
}

/// The first row of the batches' first rows is the first row of all rows, and
/// the last row of the batches' last rows is the last row of all rows, however
/// the rows are split into batches, empty batches included.
pub proof fn law_first_last_of_partials(agg: ScanAggregation, parts: Seq<Seq<Option<Cell>>>)
    requires
        agg is First || agg is Last,
    ensures
        agg.reduced(joined(agg.partials(parts))) == agg.reduced(joined(parts)),
    decreases parts.len(),
{
    if parts.len() > 0 {
        let init = parts.drop_last();
        let last = parts.last();
        law_first_last_of_partials(agg, init);
        assert(agg.partials(parts).drop_last() =~= agg.partials(init));
        let done = joined(agg.partials(init));
        let all = joined(init);
        crate::kernels::lemma_head_concat(done, agg.reduced(last));
        crate::kernels::lemma_head_concat(all, last);
        crate::kernels::lemma_tail_concat(done, agg.reduced(last));
        crate::kernels::lemma_tail_concat(all, last);
        if agg is First {
            assert(head_of(done, 1).len() == head_of(all, 1).len());
            assert(head_of(head_of(last, 1), 1) =~= head_of(last, 1));
        } else {
            assert(tail_of(tail_of(last, 1), 1) =~= tail_of(last, 1));
        }
    }
}

} // verus!
