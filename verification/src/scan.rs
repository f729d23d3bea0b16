//! The steps of a scan between two pulls from the batch source: filtering by
//! the predicate's result, reducing to partial results, counting raw rows,
//! and assembling the buffered tables at the end.

use vstd::prelude::*;
use crate::aggregate::joined;
use crate::aggregate::ScanAggregation;
use crate::column::Column;
use crate::column::ColumnView;
use crate::error::Error;
use crate::error::ErrorView;
use crate::cell::ints_of;
use crate::cell::Cell;
use crate::cell::Field;
use crate::kernels::total;
use crate::table::empty_of;
use crate::table::filtered;
use crate::table::fits_mask;
use crate::table::height_of;
use crate::table::rectangular;
use crate::table::stack_fault;
use crate::table::stacked;
use crate::table::types_match;
use crate::table::Schema;
use crate::table::Table;

verus! {

/// What a predicate hands back for one table: a boolean mask with one entry
/// per row, or cells of another kind.
#[derive(Debug, Clone, PartialEq, Eq)]
pub enum Series {
    Cells(Vec<Option<Cell>>),
    Boolean(Vec<bool>),
}

/// Whether the tables assembled from the results of reductions are checked for
/// equally long columns (`Strict`) or taken as they come (`Fast`).
#[derive(Debug, Clone, Copy, PartialEq, Eq)]
pub enum Validation {
    Strict,
    Fast,
}

impl Validation {
    /// Whether results of reductions are checked.
    pub open spec fn strict(self) -> bool {
        self == Validation::Strict
    }
}

impl Series {
    /// The mask, if the series is boolean.
    pub fn bool(&self) -> (r: Result<&Vec<bool>, Error>)
        ensures
            match *self {
                Series::Boolean(mask) => r matches Ok(m) && *m == mask,
                Series::Cells(_) => r matches Err(e) && e@ == ErrorView::PredicateType,
            },
    {
        match self {
            Series::Boolean(mask) => Ok(mask),
            Series::Cells(_) => Err(Error::PredicateType),
        }
    }
}

/// The table after the predicate: the rows that its mask selects. The
/// predicate's own error is handed on as it is; a result that is no boolean
/// mask is a `PredicateType` error, a mask as long as no column a
/// `ShapeMismatch`.
pub fn apply_predicate(df: &Table, outcome: Result<Series, Error>) -> (r: Result<Table, Error>)
    ensures
        match outcome {
            Err(e) => r == Err::<Table, Error>(e),
            Ok(Series::Cells(_)) => r matches Err(e) && e@ == ErrorView::PredicateType,
            Ok(Series::Boolean(mask)) => match r {
                Ok(t) => fits_mask(df@, mask@) && t@ == filtered(df@, mask@) && rectangular(t@),
                Err(e) => !fits_mask(df@, mask@) && e@ == ErrorView::ShapeMismatch,
            },
        },
{
    match outcome {
        Err(e) => Err(e),
        Ok(series) => match series.bool() {
            Err(e) => Err(e),
            Ok(mask) => df.filter(mask),
        },
    }
}

/// The result of reduction `i` on a table: its partial result for the table,
/// or, when `last` is set, its final result for column `i`, which holds its
/// partial results.
pub open spec fn result_at(
    t: Seq<ColumnView>,
    specs: Seq<ScanAggregation>,
    last: bool,
    i: int,
) -> Result<ColumnView, ErrorView> {
    if last {
        specs[i].finished(seq![t[i]])
    } else {
        specs[i].partial(t)
    }
}

/// The results of the first `n` reductions on a table, in their order. The
/// first reduction that fails decides the error.
pub open spec fn results_upto(
    t: Seq<ColumnView>,
    specs: Seq<ScanAggregation>,
    last: bool,
    n: int,
) -> Result<Seq<ColumnView>, ErrorView>
    decreases n,
{
    if n <= 0 {
        Ok(Seq::empty())
    } else {
        match results_upto(t, specs, last, n - 1) {
            Err(e) => Err(e),
            Ok(columns) => match result_at(t, specs, last, n - 1) {
                Err(e) => Err(e),
                Ok(c) => Ok(columns.push(c)),
            },
        }
    }
}

/// The columns that take the place of a table's columns: one result per
/// reduction, in their order; when `strict` is set, results of different
/// lengths are a `ShapeMismatch`. The partial
/// results are taken from the source columns by name; the final results, when
/// `last` is set, each from the column at the reduction's own position, so the
/// table must then hold one column per reduction.
pub open spec fn reduced_table(
    t: Seq<ColumnView>,
    specs: Seq<ScanAggregation>,
    last: bool,
    strict: bool,
) -> Result<Seq<ColumnView>, ErrorView> {
    if last && t.len() != specs.len() {
        Err(ErrorView::ShapeMismatch)
    } else {
        match results_upto(t, specs, last, specs.len() as int) {
            Err(e) => Err(e),
            Ok(columns) => if strict && !rectangular(columns) {
                Err(ErrorView::ShapeMismatch)
            } else {
                Ok(columns)
            },
        }
    }
}

/// An error among the first `k` reductions is the error among more.
pub proof fn lemma_results_error_stays(
    t: Seq<ColumnView>,
    specs: Seq<ScanAggregation>,
    last: bool,
    k: int,
    n: int,
)
    requires
        k <= n,
        results_upto(t, specs, last, k) is Err,
    ensures
        results_upto(t, specs, last, n) == results_upto(t, specs, last, k),
    decreases n - k,
{
    if k < n {
        lemma_results_error_stays(t, specs, last, k, n - 1);
    }
}

/// The table whose columns are the results of the reductions, in their
/// order. Without `last`: the partial results for `df`, each taken
/// from its source column. With `last`: the final results, each taken from the
/// column of `df` at the reduction's own position, which holds its partial
/// results; `df` must then hold one column per reduction, else it is a
/// `ShapeMismatch`. `Strict` fails with `ShapeMismatch` when the results differ
/// in length.
pub fn reduce_table(
    df: &Table,
    aggregate: &[ScanAggregation],
    last: bool,
    validation: Validation,
) -> (r: Result<Table, Error>)
    ensures
        match reduced_table(df@, aggregate@, last, validation.strict()) {
            Ok(t) => r matches Ok(x) && x@ == t,
            Err(e) => r matches Err(x) && x@ == e,
        },
{
    if last && df.columns.len() != aggregate.len() {
        return Err(Error::ShapeMismatch);
    }
    let mut columns: Vec<Column> = Vec::new();
    let mut i: usize = 0;
    proof {
        assert(crate::table::columns_view(columns@) =~= Seq::<ColumnView>::empty());
    }
    while i < aggregate.len()
        invariant
            i <= aggregate.len(),
            last ==> df.columns@.len() == aggregate@.len(),
            results_upto(df@, aggregate@, last, i as int) == Ok::<Seq<ColumnView>, ErrorView>(
                crate::table::columns_view(columns@),
            ),
            columns@.len() == i,
        decreases aggregate.len() - i,
    {
        let outcome = if last {
            let mut own: Vec<Column> = Vec::new();
            own.push(df.columns[i].duplicate());
            let own_table = Table::new_no_checks(own);
            proof {
                assert(own_table@ =~= seq![df@[i as int]]);
            }
            aggregate[i].finish(&own_table)
        } else {
            aggregate[i].evaluate_batch(df)
        };
        match outcome {
            Err(e) => {
                proof {
                    assert(results_upto(df@, aggregate@, last, i + 1) == Err::<
                        Seq<ColumnView>,
                        ErrorView,
                    >(e@));
                    lemma_results_error_stays(df@, aggregate@, last, i + 1, aggregate@.len() as int);
                }
                return Err(e);
            },
            Ok(column) => {
                proof {
                    assert(crate::table::columns_view(columns@.push(column))
                        =~= crate::table::columns_view(columns@).push(column@));
                }
                columns.push(column);
            },
        }
        i += 1;
    }
    let table = Table::new_no_checks(columns);
    match validation {
        Validation::Strict => if table.is_rectangular() {
            Ok(table)
        } else {
            Err(Error::ShapeMismatch)
        },
        Validation::Fast => Ok(table),
    }
}

/// The reductions asked for, if any, as a sequence.
pub open spec fn specs_of(aggregate: Option<&[ScanAggregation]>) -> Option<Seq<ScanAggregation>> {
    match aggregate {
        Some(specs) => Some(specs@),
        None => None,
    }
}

/// What a scan buffers for one table: the table itself, or with reductions the
/// table of their partial results.
pub open spec fn buffered(
    t: Seq<ColumnView>,
    specs: Option<Seq<ScanAggregation>>,
    strict: bool,
) -> Result<Seq<ColumnView>, ErrorView> {
    match specs {
        None => Ok(t),
        Some(s) => reduced_table(t, s, false, strict),
    }
}

/// The first `n` tables stacked in their order. Stacking fails at the first
/// table that is not as wide as those before it, or whose columns are not of
/// their types.
pub open spec fn stack_upto(parts: Seq<Seq<ColumnView>>, n: int) -> Result<
    Seq<ColumnView>,
    ErrorView,
>
    decreases n,
{
    if n <= 1 {
        Ok(parts[0])
    } else {
        match stack_upto(parts, n - 1) {
            Err(e) => Err(e),
            Ok(acc) => match stack_fault(acc, parts[n - 1]) {
                Some(e) => Err(e),
                None => Ok(stacked(acc, parts[n - 1])),
            },
        }
    }
}

/// All buffered tables stacked in arrival order; without any, the table
/// without rows that has the columns of the schema.
pub open spec fn concatenated(parts: Seq<Seq<ColumnView>>, fields: Seq<Field>) -> Result<
    Seq<ColumnView>,
    ErrorView,
> {
    if parts.len() == 0 {
        Ok(empty_of(fields))
    } else {
        stack_upto(parts, parts.len() as int)
    }
}

/// The table that a scan returns for what it has buffered. Without
/// reductions: the buffered tables stacked. With reductions: the table of their
/// final results, taken from the stacked tables of partial results; a scan
/// that buffered nothing takes them from the partial results for the table
/// without rows of the schema.
pub open spec fn scan_result(
    parts: Seq<Seq<ColumnView>>,
    fields: Seq<Field>,
    specs: Option<Seq<ScanAggregation>>,
    strict: bool,
) -> Result<Seq<ColumnView>, ErrorView> {
    match specs {
        None => concatenated(parts, fields),
        Some(s) => match (if parts.len() == 0 {
            reduced_table(empty_of(fields), s, false, strict)
        } else {
            concatenated(parts, fields)
        }) {
            Err(e) => Err(e),
            Ok(t) => reduced_table(t, s, true, strict),
        },
    }
}

/// The views of a list of tables.
pub open spec fn tables_view(parts: Seq<Table>) -> Seq<Seq<ColumnView>> {
    parts.map_values(|t: Table| t@)
}

/// A row count held in a `usize`: exact up to `usize::MAX`, which stands for
/// every larger count.
pub open spec fn capped(n: int) -> usize {
    if n <= usize::MAX {
        n as usize
    } else {
        usize::MAX
    }
}

/// A stacking error among the first `k` tables is the error among more.
pub proof fn lemma_stack_error_stays(parts: Seq<Seq<ColumnView>>, k: int, n: int)
    requires
        1 <= k <= n,
        stack_upto(parts, k) is Err,
    ensures
        stack_upto(parts, n) == stack_upto(parts, k),
    decreases n - k,
{
    if k < n {
        lemma_stack_error_stays(parts, k, n - 1);
    }
}

/// The buffered tables stacked in arrival order; without any, the table
/// without rows that has the columns of the schema. Fails at the first table
/// that cannot be stacked under those before it, as [`Table::vstack`] does.
pub fn accumulate_tables_vertical(parts: &Vec<Table>, schema: &Schema) -> (r: Result<Table, Error>)
    ensures
        match concatenated(tables_view(parts@), schema.fields@) {
            Ok(t) => r matches Ok(x) && x@ == t,
            Err(e) => r matches Err(x) && x@ == e,
        },
{
    if parts.len() == 0 {
        return Ok(Table::empty(schema));
    }
    let ghost views = tables_view(parts@);
    let mut acc = parts[0].duplicate();
    let mut i: usize = 1;
    while i < parts.len()
        invariant
            1 <= i <= parts.len(),
            views == tables_view(parts@),
            stack_upto(views, i as int) == Ok::<Seq<ColumnView>, ErrorView>(acc@),
        decreases parts.len() - i,
    {
        assert(views[i as int] == parts@[i as int]@);
        match acc.vstack(&parts[i]) {
            Err(e) => {
                proof {
                    assert(stack_upto(views, i + 1) == Err::<Seq<ColumnView>, ErrorView>(e@));
                    lemma_stack_error_stays(views, i + 1, views.len() as int);
                }
                return Err(e);
            },
            Ok(next) => {
                acc = next;
            },
        }
        i += 1;
    }
    Ok(acc)
}

/// What a scan has taken in so far: the raw rows counted, and the tables
/// buffered in arrival order.
pub struct Scan {
    pub n_rows: usize,
    pub parts: Vec<Table>,
}

impl Scan {
    /// The buffered tables, in arrival order.
    pub open spec fn tables(&self) -> Seq<Seq<ColumnView>> {
        tables_view(self.parts@)
    }

    /// A scan that has taken in nothing.
    pub fn new() -> (r: Scan)
        ensures
            r.n_rows == 0,
            r.parts@.len() == 0,
            r.tables() == Seq::<Seq<ColumnView>>::empty(),
    {
        let r = Scan { n_rows: 0, parts: Vec::new() };
        proof {
            assert(r.tables() =~= Seq::<Seq<ColumnView>>::empty());
        }
        r
    }

    /// Takes in one batch: counts its `raw_rows`, the rows it had before any
    /// filter, and buffers `df`, its table after the filter, or with reductions
    /// the table of their partial results. On an error the scan is unchanged.
    pub fn absorb(
        &mut self,
        raw_rows: usize,
        df: Table,
        aggregate: Option<&[ScanAggregation]>,
        validation: Validation,
    ) -> (r: Result<(), Error>)
        ensures
            match buffered(df@, specs_of(aggregate), validation.strict()) {
                Ok(t) => r is Ok && final(self).tables() == old(self).tables().push(t)
                    && final(self).parts@.len() == old(self).parts@.len() + 1
                    && final(self).n_rows == capped(old(self).n_rows + raw_rows),
                Err(e) => r matches Err(x) && x@ == e && *final(self) == *old(self),
            },
    {
        let table = match aggregate {
            None => df,
            Some(specs) => match reduce_table(&df, specs, false, validation) {
                Err(e) => {
                    return Err(e);
                },
                Ok(partial) => partial,
            },
        };
        proof {
            assert(tables_view(self.parts@.push(table)) =~= tables_view(self.parts@).push(table@));
        }
        self.parts.push(table);
        self.n_rows = self.n_rows.saturating_add(raw_rows);
        Ok(())
    }

    /// Whether the raw rows counted have reached the ceiling, if there is one.
    pub fn reached(&self, ceiling: Option<usize>) -> (r: bool)
        ensures
            r == at_ceiling(self.n_rows, ceiling),
    {
        match ceiling {
            Some(n) => self.n_rows >= n,
            None => false,
        }
    }

    /// The table of the scan: the buffered tables stacked in arrival order (the
    /// table without rows of the schema when there is none); with reductions,
    /// the table of their final results, each taken from the stacked column of
    /// its own partial results.
    pub fn finish(
        self,
        schema: &Schema,
        aggregate: Option<&[ScanAggregation]>,
        validation: Validation,
    ) -> (r: Result<Table, Error>)
        ensures
            match scan_result(
                self.tables(),
                schema.fields@,
                specs_of(aggregate),
                validation.strict(),
            ) {
                Ok(t) => r matches Ok(x) && x@ == t,
                Err(e) => r matches Err(x) && x@ == e,
            },
    {
        let stacked = match accumulate_tables_vertical(&self.parts, schema) {
            Err(e) => {
                return Err(e);
            },
            Ok(t) => t,
        };
        let table = match aggregate {
            None => stacked,
            Some(specs) => {
                let partials = if self.parts.len() == 0 {
                    match reduce_table(&stacked, specs, false, validation) {
                        Err(e) => {
                            return Err(e);
                        },
                        Ok(t) => t,
                    }
                } else {
                    stacked
                };
                match reduce_table(&partials, specs, true, validation) {
                    Err(e) => {
                        return Err(e);
                    },
                    Ok(t) => t,
                }
            },
        };
        Ok(table)
    }
}

/// Column `i` of every table, in the order of the tables.
pub open spec fn column_parts(parts: Seq<Seq<ColumnView>>, i: int) -> Seq<Seq<Option<Cell>>> {
    parts.map_values(|t: Seq<ColumnView>| t[i].values)
}

/// Every table is as wide as the first.
pub open spec fn same_width(parts: Seq<Seq<ColumnView>>) -> bool {
    forall|k: int| 0 <= k < parts.len() ==> (#[trigger] parts[k]).len() == parts[0].len()
}

/// Every table has the column types of the first.
pub open spec fn same_types(parts: Seq<Seq<ColumnView>>) -> bool {
    forall|k: int| 0 <= k < parts.len() ==> types_match(parts[0], #[trigger] parts[k])
}

/// The masks of all batches laid end to end.
pub open spec fn joined_masks(masks: Seq<Seq<bool>>) -> Seq<bool>
    decreases masks.len(),
{
    if masks.len() == 0 {
        Seq::empty()
    } else {
        joined_masks(masks.drop_last()) + masks.last()
    }
}

/// Every table filtered by its own mask.
pub open spec fn filtered_parts(parts: Seq<Seq<ColumnView>>, masks: Seq<Seq<bool>>) -> Seq<
    Seq<ColumnView>,
> {
    Seq::new(parts.len(), |k: int| filtered(parts[k], masks[k]))
}

/// The sum of the raw row counts of the batches.
pub open spec fn rows_total(rows: Seq<usize>) -> int
    decreases rows.len(),
{
    if rows.len() == 0 {
        0
    } else {
        rows_total(rows.drop_last()) + rows.last()
    }
}

/// The row counter of a scan after batches of these raw row counts.
pub open spec fn counted(rows: Seq<usize>) -> usize
    decreases rows.len(),
{
    if rows.len() == 0 {
        0
    } else {
        capped(counted(rows.drop_last()) + rows.last())
    }
}

proof fn lemma_stack_prefix(parts: Seq<Seq<ColumnView>>, n: int)
    requires
        1 <= n <= parts.len(),
    ensures
        stack_upto(parts, n) matches Ok(t) ==> t.len() == parts[0].len() && forall|i: int|
            0 <= i < t.len() ==> (#[trigger] t[i]).name == parts[0][i].name && t[i].dtype
                == parts[0][i].dtype && t[i].values == joined(column_parts(parts.take(n), i)),
    decreases n,
{
    if n <= 1 {
        let t = parts[0];
        assert forall|i: int| 0 <= i < t.len() implies (#[trigger] t[i]).values == joined(
            column_parts(parts.take(n), i),
        ) by {
            let c = column_parts(parts.take(n), i);
            assert(c.drop_last() =~= Seq::<Seq<Option<Cell>>>::empty());
            assert(joined(c.drop_last()) == Seq::<Option<Cell>>::empty());
            assert(joined(c) =~= c.last());
        }
    } else {
        lemma_stack_prefix(parts, n - 1);
        if stack_upto(parts, n) is Ok {
            let acc = stack_upto(parts, n - 1)->Ok_0;
            let t = stacked(acc, parts[n - 1]);
            assert forall|i: int| 0 <= i < t.len() implies (#[trigger] t[i]).name
                == parts[0][i].name && t[i].dtype == parts[0][i].dtype && t[i].values == joined(
                column_parts(parts.take(n), i),
            ) by {
                let c = column_parts(parts.take(n), i);
                assert(c.drop_last() =~= column_parts(parts.take(n - 1), i));
                assert(acc[i].values == joined(column_parts(parts.take(n - 1), i)));
            }
        }
    }
}

/// Tables that are equally wide and of the same column types can be stacked.
pub proof fn lemma_stack_succeeds(parts: Seq<Seq<ColumnView>>, n: int)
    requires
        1 <= n <= parts.len(),
        same_width(parts),
        same_types(parts),
    ensures
        stack_upto(parts, n) is Ok,
    decreases n,
{
    if n > 1 {
        lemma_stack_succeeds(parts, n - 1);
        lemma_stack_prefix(parts, n - 1);
        let acc = stack_upto(parts, n - 1)->Ok_0;
        let p = parts[n - 1];
        assert(p.len() == parts[0].len());
        assert(types_match(parts[0], p));
        assert forall|i: int| 0 <= i < acc.len() implies (#[trigger] acc[i]).dtype
            == p[i].dtype by {
            assert(parts[0][i].dtype == p[i].dtype);
        }
    }
}

/// Without a predicate and without reductions, the table of a scan holds the
/// rows of the buffered tables in arrival order: each column is the columns of
/// that position laid end to end, under the name and the type that the first
/// table gives it. The tables must be equally wide and of the same column
/// types.
pub proof fn law_scan_keeps_rows_in_arrival_order(
    parts: Seq<Seq<ColumnView>>,
    fields: Seq<Field>,
    strict: bool,
)
    requires
        parts.len() > 0,
        same_width(parts),
        same_types(parts),
    ensures
        scan_result(parts, fields, None, strict) matches Ok(t) && t.len() == parts[0].len()
            && forall|i: int|
            0 <= i < t.len() ==> (#[trigger] t[i]).name == parts[0][i].name && t[i].dtype
                == parts[0][i].dtype && t[i].values == joined(column_parts(parts, i)),
{
    lemma_stack_succeeds(parts, parts.len() as int);
    lemma_stack_prefix(parts, parts.len() as int);
    assert(parts.take(parts.len() as int) =~= parts);
}

/// A scan that buffered nothing returns the table without rows that has the
/// columns of the schema, and no error.
pub proof fn law_scan_of_nothing_is_empty(fields: Seq<Field>, strict: bool)
    ensures
        scan_result(Seq::empty(), fields, None, strict) == Ok::<Seq<ColumnView>, ErrorView>(
            empty_of(fields),
        ),
        empty_of(fields).len() == fields.len(),
        height_of(empty_of(fields)) == 0,
        rectangular(empty_of(fields)),
{
}

/// The row counter of a scan is the true number of raw rows, capped at
/// `usize::MAX`, so it has reached a ceiling exactly when the true number has.
pub proof fn law_counter_reaches_ceiling_with_rows(rows: Seq<usize>, ceiling: usize)
    ensures
        counted(rows) == capped(rows_total(rows)),
        rows_total(rows) >= 0,
        counted(rows) >= ceiling <==> rows_total(rows) >= ceiling,
    decreases rows.len(),
{
    if rows.len() > 0 {
        law_counter_reaches_ceiling_with_rows(rows.drop_last(), ceiling);
    }
}

proof fn lemma_filter_stack_prefix(
    parts: Seq<Seq<ColumnView>>,
    masks: Seq<Seq<bool>>,
    n: int,
)
    requires
        1 <= n <= parts.len(),
        parts.len() == masks.len(),
        forall|k: int| 0 <= k < parts.len() ==> fits_mask(#[trigger] parts[k], masks[k]),
    ensures
        match stack_upto(parts, n) {
            Ok(t) => fits_mask(t, joined_masks(masks.take(n))) && stack_upto(
                filtered_parts(parts, masks),
                n,
            ) == Ok::<Seq<ColumnView>, ErrorView>(filtered(t, joined_masks(masks.take(n)))),
            Err(e) => stack_upto(filtered_parts(parts, masks), n) == Err::<
                Seq<ColumnView>,
                ErrorView,
            >(e),
        },
    decreases n,
{
    let fparts = filtered_parts(parts, masks);
    if n <= 1 {
        let m = masks.take(n);
        assert(m.drop_last() =~= Seq::<Seq<bool>>::empty());
        assert(joined_masks(m.drop_last()) == Seq::<bool>::empty());
        assert(joined_masks(m) =~= masks[0]);
        assert(fits_mask(parts[0], masks[0]));
    } else {
        lemma_filter_stack_prefix(parts, masks, n - 1);
        let before = masks.take(n - 1);
        let now = masks.take(n);
        assert(now.drop_last() =~= before);
        assert(now.last() == masks[n - 1]);
        assert(fits_mask(parts[n - 1], masks[n - 1]));
        match stack_upto(parts, n - 1) {
            Err(e) => {},
            Ok(acc) => {
                let mask = joined_masks(before);
                let p = parts[n - 1];
                let m = masks[n - 1];
                assert(fparts[n - 1] == filtered(p, m));
                assert(stack_fault(filtered(acc, mask), filtered(p, m)) == stack_fault(acc, p)) by {
                    if acc.len() == p.len() {
                        if types_match(acc, p) {
                            assert forall|i: int| 0 <= i < acc.len() implies (#[trigger] filtered(
                                acc,
                                mask,
                            )[i]).dtype == filtered(p, m)[i].dtype by {
                                assert(acc[i].dtype == p[i].dtype);
                            }
                        } else {
                            let i = choose|i: int|
                                0 <= i < acc.len() && (#[trigger] acc[i]).dtype != p[i].dtype;
                            assert(filtered(acc, mask)[i].dtype != filtered(p, m)[i].dtype);
                        }
                    }
                }
                if stack_fault(acc, p) is None {
                    let t = stacked(acc, p);
                    assert forall|i: int| 0 <= i < t.len() implies (#[trigger] t[i]).values.len()
                        == (mask + m).len() by {
                        assert(acc[i].values.len() == mask.len());
                        assert(p[i].values.len() == m.len());
                    }
                    assert forall|i: int| 0 <= i < t.len() implies (#[trigger] stacked(
                        filtered(acc, mask),
                        filtered(p, m),
                    )[i]) == filtered(t, mask + m)[i] by {
                        assert(acc[i].values.len() == mask.len());
                        assert(p[i].values.len() == m.len());
                        crate::kernels::lemma_kept_concat(acc[i].values, mask, p[i].values, m);
                    }
                    assert(stacked(filtered(acc, mask), filtered(p, m)) =~= filtered(t, mask + m));
                }
            },
        }
    }
}

/// Filtering commutes with the scan: stacking the tables after each was
/// filtered by its own mask gives the stacked table filtered by the masks laid
/// end to end, and fails exactly when stacking the unfiltered tables fails.
/// The masks of a predicate that judges each row by itself are of this kind.
pub proof fn law_filter_commutes_with_scan(
    parts: Seq<Seq<ColumnView>>,
    masks: Seq<Seq<bool>>,
    fields: Seq<Field>,
)
    requires
        parts.len() == masks.len(),
        forall|k: int| 0 <= k < parts.len() ==> fits_mask(#[trigger] parts[k], masks[k]),
    ensures
        match concatenated(parts, fields) {
            Ok(t) => fits_mask(t, joined_masks(masks)) && concatenated(
                filtered_parts(parts, masks),
                fields,
            ) == Ok::<Seq<ColumnView>, ErrorView>(filtered(t, joined_masks(masks))),
            Err(e) => concatenated(filtered_parts(parts, masks), fields) == Err::<
                Seq<ColumnView>,
                ErrorView,
            >(e),
        },
{
    if parts.len() == 0 {
        let t = empty_of(fields);
        assert(joined_masks(masks) =~= Seq::<bool>::empty());
        assert(filtered(t, joined_masks(masks)) =~= t);
    } else {
        lemma_filter_stack_prefix(parts, masks, parts.len() as int);
        assert(masks.take(masks.len() as int) =~= masks);
    }
}

/// Every table is rectangular.
pub open spec fn all_rectangular(parts: Seq<Seq<ColumnView>>) -> bool {
    forall|k: int| 0 <= k < parts.len() ==> rectangular(#[trigger] parts[k])
}

/// Stacking rectangular tables leaves a rectangular table.
pub proof fn lemma_stacked_is_rectangular(parts: Seq<Seq<ColumnView>>, n: int)
    requires
        1 <= n <= parts.len(),
        all_rectangular(parts),
    ensures
        stack_upto(parts, n) matches Ok(t) ==> rectangular(t),
    decreases n,
{
    if n <= 1 {
        assert(rectangular(parts[0]));
    } else {
        lemma_stacked_is_rectangular(parts, n - 1);
        match stack_upto(parts, n - 1) {
            Err(e) => {},
            Ok(acc) => {
                let p = parts[n - 1];
                assert(rectangular(p));
                if stack_fault(acc, p) is None {
                    let t = stacked(acc, p);
                    assert forall|i: int| 0 <= i < t.len() implies (#[trigger] t[i]).values.len()
                        == height_of(t) by {
                        assert(acc[i].values.len() == height_of(acc));
                        assert(p[i].values.len() == height_of(p));
                        assert(acc[0].values.len() == height_of(acc));
                        assert(p[0].values.len() == height_of(p));
                    }
                }
            },
        }
    }
}

/// The results of the first `n` reductions are `n` columns of at most one
/// row; the final results bear the output names of their reductions.
pub proof fn lemma_results_shape(
    t: Seq<ColumnView>,
    specs: Seq<ScanAggregation>,
    last: bool,
    n: int,
)
    requires
        0 <= n <= specs.len(),
    ensures
        results_upto(t, specs, last, n) matches Ok(columns) ==> columns.len() == n && forall|i: int|
            0 <= i < n ==> (#[trigger] columns[i]).values.len() <= 1 && (last ==> columns[i].name
                == specs[i].output_name()),
    decreases n,
{
    if n > 0 {
        lemma_results_shape(t, specs, last, n - 1);
    }
}

/// What holds of every table that a scan returns. With reductions it has one
/// column per reduction, under the reduction's output name and of at most one
/// row, and a strict scan returns it rectangular.
/// Without reductions it is rectangular when every buffered table is.
pub proof fn lemma_scan_result_shape(
    parts: Seq<Seq<ColumnView>>,
    fields: Seq<Field>,
    specs: Option<Seq<ScanAggregation>>,
    strict: bool,
)
    ensures
        scan_result(parts, fields, specs, strict) matches Ok(t) ==> match specs {
            Some(s) => t.len() == s.len() && (forall|i: int|
                0 <= i < t.len() ==> (#[trigger] t[i]).name == s[i].output_name()
                    && t[i].values.len() <= 1) && (strict ==> rectangular(t)),
            None => all_rectangular(parts) ==> rectangular(t),
        },
{
    match specs {
        Some(s) => {
            match scan_result(parts, fields, specs, strict) {
                Ok(t) => {
                    let base = if parts.len() == 0 {
                        reduced_table(empty_of(fields), s, false, strict)
                    } else {
                        concatenated(parts, fields)
                    };
                    lemma_results_shape(base->Ok_0, s, true, s.len() as int);
                },
                Err(e) => {},
            }
        },
        None => {
            if parts.len() > 0 {
                if all_rectangular(parts) {
                    lemma_stacked_is_rectangular(parts, parts.len() as int);
                }
            }
        },
    }
}

/// The rows of a reduction's source column in every table, in the order of
/// the tables.
pub open spec fn source_rows(tables: Seq<Seq<ColumnView>>, spec: ScanAggregation) -> Seq<
    Seq<Option<Cell>>,
> {
    tables.map_values(
        |t: Seq<ColumnView>| t[crate::table::find_column(t, spec.source())->Some_0].values,
    )
}

/// Each of the first `n` results is the result of its own reduction.
pub proof fn lemma_results_at(
    t: Seq<ColumnView>,
    specs: Seq<ScanAggregation>,
    last: bool,
    n: int,
)
    requires
        0 <= n <= specs.len(),
    ensures
        results_upto(t, specs, last, n) matches Ok(columns) ==> columns.len() == n && forall|i: int|
            0 <= i < n ==> result_at(t, specs, last, i) == Ok::<ColumnView, ErrorView>(
                #[trigger] columns[i],
            ),
    decreases n,
{
    if n > 0 {
        lemma_results_at(t, specs, last, n - 1);
    }
}

/// A scan with reductions returns, for each reduction, what the reduction
/// makes of all rows of its source column at once: folding batch by batch and
/// then over the partial results changes nothing. `tables` are the tables of
/// the batches as they were buffered from, `parts` what was buffered for them.
pub proof fn law_scan_reduces_all_rows(
    tables: Seq<Seq<ColumnView>>,
    parts: Seq<Seq<ColumnView>>,
    fields: Seq<Field>,
    specs: Seq<ScanAggregation>,
    strict: bool,
    i: int,
)
    requires
        tables.len() > 0,
        tables.len() == parts.len(),
        forall|k: int|
            0 <= k < tables.len() ==> buffered(#[trigger] tables[k], Some(specs), strict) == Ok::<
                Seq<ColumnView>,
                ErrorView,
            >(parts[k]),
        0 <= i < specs.len(),
        scan_result(parts, fields, Some(specs), strict) is Ok,
    ensures
        scan_result(parts, fields, Some(specs), strict) matches Ok(t) && t.len() == specs.len()
            && t[i].name == specs[i].output_name() && t[i].values == specs[i].reduced(
            joined(source_rows(tables, specs[i])),
        ),
{
    let spec = specs[i];
    let rows = source_rows(tables, spec);
    assert forall|k: int| 0 <= k < parts.len() implies (#[trigger] parts[k]).len() == specs.len()
        && parts[k][i].values == spec.reduced(rows[k]) && (spec is Sum ==> i64::MIN <= total(
        ints_of(rows[k]),
    ) <= i64::MAX) by {
        let t = tables[k];
        assert(buffered(t, Some(specs), strict) == Ok::<Seq<ColumnView>, ErrorView>(parts[k]));
        lemma_results_at(t, specs, false, specs.len() as int);
        assert(result_at(t, specs, false, i) == Ok::<ColumnView, ErrorView>(parts[k][i]));
        crate::table::lemma_find_is_first(t, spec.source(), t.len() as int);
        let j = crate::table::find_column(t, spec.source())->Some_0;
        assert(rows[k] == t[j].values);
        if spec is Sum {
            let ints = ints_of(t[j].values);
            assert(ints.take(ints.len() as int) =~= ints);
        }
    }
    lemma_stack_prefix(parts, parts.len() as int);
    assert(parts.take(parts.len() as int) =~= parts);
    let c = concatenated(parts, fields)->Ok_0;
    assert(column_parts(parts, i) =~= spec.partials(rows));
    assert(c[i].values == joined(spec.partials(rows)));
    let t = scan_result(parts, fields, Some(specs), strict)->Ok_0;
    lemma_results_at(c, specs, true, specs.len() as int);
    assert(result_at(c, specs, true, i) == Ok::<ColumnView, ErrorView>(t[i]));
    let own = seq![c[i]];
    crate::table::lemma_find_is_first(own, spec.source(), own.len() as int);
    assert(t[i].values == spec.reduced(c[i].values));
    if spec is First || spec is Last {
        crate::aggregate::law_first_last_of_partials(spec, rows);
    } else {
        crate::aggregate::law_reduce_partials_is_reduce_all(spec, rows);
    }
}

/// Whether a row counter has reached the ceiling, if there is one.
pub open spec fn at_ceiling(n_rows: usize, ceiling: Option<usize>) -> bool {
    match ceiling {
        Some(n) => n_rows >= n,
        None => false,
    }
}

} // verus!
