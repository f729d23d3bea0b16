//! The scan as a whole: which batches of a source it reads, what it buffers
//! for each, and the table it returns.

use vstd::prelude::*;
use crate::aggregate::joined;
use crate::aggregate::ScanAggregation;
use crate::cell::Field;
use crate::column::ColumnView;
use crate::error::Error;
use crate::error::ErrorView;
use crate::scan::all_rectangular;
use crate::scan::apply_predicate;
use crate::scan::at_ceiling;
use crate::scan::column_parts;
use crate::scan::concatenated;
use crate::scan::law_counter_reaches_ceiling_with_rows;
use crate::scan::law_scan_keeps_rows_in_arrival_order;
use crate::scan::rows_total;
use crate::scan::same_types;
use crate::scan::same_width;
use crate::scan::buffered;
use crate::scan::counted;
use crate::scan::lemma_scan_result_shape;
use crate::scan::scan_result;
use crate::scan::specs_of;
use crate::scan::Scan;
use crate::scan::Validation;
use crate::source::BatchSource;
use crate::source::RowPredicate;
use crate::table::batch_columns;
use crate::table::converted;
use crate::table::filtered;
use crate::table::fits_mask;
use crate::table::lemma_assembly_checks;
use crate::table::rectangular;
use crate::table::Batch;
use crate::table::Table;

verus! {

/// The raw row counts of the batches, in order.
pub open spec fn raw_rows(pending: Seq<Batch>) -> Seq<usize> {
    pending.map_values(|b: Batch| b.rows() as usize)
}

/// How many batches a scan reads from a source whose batches have these raw
/// row counts, counting on from the first `k`, none of which reached the
/// ceiling: up to and with the first batch at which the rows counted reach
/// the ceiling, or all of them.
pub open spec fn read_from(rows: Seq<usize>, ceiling: Option<usize>, k: int) -> int
    decreases rows.len() - k,
{
    if k >= rows.len() {
        rows.len() as int
    } else if at_ceiling(counted(rows.take(k + 1)), ceiling) {
        k + 1
    } else {
        read_from(rows, ceiling, k + 1)
    }
}

/// How many batches a scan reads from a source whose batches have these raw
/// row counts.
pub open spec fn batches_read(rows: Seq<usize>, ceiling: Option<usize>) -> int {
    read_from(rows, ceiling, 0)
}

/// The table after the predicate, if there is one: the rows that its mask
/// selects. A mask as long as no column is a `ShapeMismatch`.
pub open spec fn selected<P: RowPredicate>(t: Seq<ColumnView>, predicate: Option<P>) -> Result<
    Seq<ColumnView>,
    ErrorView,
> {
    match predicate {
        None => Ok(t),
        Some(p) => match p.mask(t) {
            Err(e) => Err(e),
            Ok(m) => if fits_mask(t, m) {
                Ok(filtered(t, m))
            } else {
                Err(ErrorView::ShapeMismatch)
            },
        },
    }
}

/// What a scan buffers for one batch: the batch converted to a table, filtered
/// by the predicate, and with reductions reduced to their partial results.
pub open spec fn batch_part<P: RowPredicate>(
    batch: Batch,
    predicate: Option<P>,
    specs: Option<Seq<ScanAggregation>>,
    strict: bool,
) -> Result<Seq<ColumnView>, ErrorView> {
    match converted(batch) {
        Err(e) => Err(e),
        Ok(t) => match selected(t, predicate) {
            Err(e) => Err(e),
            Ok(d) => buffered(d, specs, strict),
        },
    }
}

/// What a scan buffers for the first `n` batches, in arrival order. The first
/// batch that fails decides the error.
pub open spec fn parts_upto<P: RowPredicate>(
    pending: Seq<Batch>,
    predicate: Option<P>,
    specs: Option<Seq<ScanAggregation>>,
    strict: bool,
    n: int,
) -> Result<Seq<Seq<ColumnView>>, ErrorView>
    decreases n,
{
    if n <= 0 {
        Ok(Seq::empty())
    } else {
        match parts_upto(pending, predicate, specs, strict, n - 1) {
            Err(e) => Err(e),
            Ok(parts) => match batch_part(pending[n - 1], predicate, specs, strict) {
                Err(e) => Err(e),
                Ok(p) => Ok(parts.push(p)),
            },
        }
    }
}

/// Whether a scan pulls once more after the last batch it reads: it does
/// unless that batch brought the raw rows read to the ceiling.
pub open spec fn pulls_past_end(rows: Seq<usize>, ceiling: Option<usize>) -> bool {
    let read = batches_read(rows, ceiling);
    read == 0 || !at_ceiling(counted(rows.take(read)), ceiling)
}

/// The table of the scan of a source with these pending batches: the scan
/// reads batches until the raw rows counted reach the ceiling, buffers a table
/// for each, and assembles what it buffered. The first failure in scan order
/// ends the scan with its error: that of the first batch that fails, or that
/// of the source, when the scan pulls from it after its last batch.
pub open spec fn scan_of<P: RowPredicate>(
    pending: Seq<Batch>,
    failure: Option<ErrorView>,
    fields: Seq<Field>,
    predicate: Option<P>,
    specs: Option<Seq<ScanAggregation>>,
    strict: bool,
    ceiling: Option<usize>,
) -> Result<Seq<ColumnView>, ErrorView> {
    match parts_upto(
        pending,
        predicate,
        specs,
        strict,
        batches_read(raw_rows(pending), ceiling),
    ) {
        Err(e) => Err(e),
        Ok(parts) => if failure is Some && pulls_past_end(raw_rows(pending), ceiling) {
            Err(failure->Some_0)
        } else {
            scan_result(parts, fields, specs, strict)
        },
    }
}

/// The position of the first of the first `n` batches for which the scan
/// fails, or `n` when it fails for none of them.
pub open spec fn first_failing<P: RowPredicate>(
    pending: Seq<Batch>,
    predicate: Option<P>,
    specs: Option<Seq<ScanAggregation>>,
    strict: bool,
    n: int,
) -> int
    decreases n,
{
    if n <= 0 {
        0
    } else {
        let before = first_failing(pending, predicate, specs, strict, n - 1);
        if before < n - 1 {
            before
        } else if batch_part(pending[n - 1], predicate, specs, strict) is Err {
            n - 1
        } else {
            n
        }
    }
}

/// How many batches a scan pulls from its source: those up to and with the
/// first for which it fails, or else those it reads.
pub open spec fn batches_pulled<P: RowPredicate>(
    pending: Seq<Batch>,
    predicate: Option<P>,
    specs: Option<Seq<ScanAggregation>>,
    strict: bool,
    ceiling: Option<usize>,
) -> int {
    let read = batches_read(raw_rows(pending), ceiling);
    let failing = first_failing(pending, predicate, specs, strict, read);
    if failing < read {
        failing + 1
    } else {
        read
    }
}

/// The first failing batch is the first at which buffering fails.
pub proof fn lemma_first_failing<P: RowPredicate>(
    pending: Seq<Batch>,
    predicate: Option<P>,
    specs: Option<Seq<ScanAggregation>>,
    strict: bool,
    n: int,
)
    requires
        0 <= n,
    ensures
        0 <= first_failing(pending, predicate, specs, strict, n) <= n,
        first_failing(pending, predicate, specs, strict, n) == n <==> parts_upto(
            pending,
            predicate,
            specs,
            strict,
            n,
        ) is Ok,
        forall|k: int|
            0 <= k < n && parts_upto(pending, predicate, specs, strict, k) is Ok && (
            #[trigger] batch_part(pending[k], predicate, specs, strict)) is Err ==> first_failing(
                pending,
                predicate,
                specs,
                strict,
                n,
            ) == k,
    decreases n,
{
    if n > 0 {
        lemma_first_failing(pending, predicate, specs, strict, n - 1);
        assert forall|k: int|
            0 <= k < n && parts_upto(pending, predicate, specs, strict, k) is Ok && (
            #[trigger] batch_part(pending[k], predicate, specs, strict)) is Err implies first_failing(
            pending,
            predicate,
            specs,
            strict,
            n,
        ) == k by {
            if k < n - 1 {
                assert(first_failing(pending, predicate, specs, strict, n - 1) == k);
            }
        }
    }
}

/// A scan that goes on after `k` batches reads more than `k` and no more than
/// there are.
pub proof fn lemma_read_from_bounds(rows: Seq<usize>, ceiling: Option<usize>, k: int)
    requires
        0 <= k <= rows.len(),
    ensures
        k <= read_from(rows, ceiling, k) <= rows.len(),
        k < rows.len() ==> k < read_from(rows, ceiling, k),
    decreases rows.len() - k,
{
    if k < rows.len() && !at_ceiling(counted(rows.take(k + 1)), ceiling) {
        lemma_read_from_bounds(rows, ceiling, k + 1);
    }
}

/// An error among the first `k` batches is the error among more.
pub proof fn lemma_parts_error_stays<P: RowPredicate>(
    pending: Seq<Batch>,
    predicate: Option<P>,
    specs: Option<Seq<ScanAggregation>>,
    strict: bool,
    k: int,
    n: int,
)
    requires
        k <= n,
        parts_upto(pending, predicate, specs, strict, k) is Err,
    ensures
        parts_upto(pending, predicate, specs, strict, n) == parts_upto(
            pending,
            predicate,
            specs,
            strict,
            k,
        ),
    decreases n - k,
{
    if k < n {
        lemma_parts_error_stays(pending, predicate, specs, strict, k, n - 1);
    }
}

/// A scan that fails for batch `k`, having buffered for all batches before
/// it, ends with that error and has pulled the batches up to and with `k`.
pub proof fn lemma_scan_fails_at<P: RowPredicate>(
    pending: Seq<Batch>,
    failure: Option<ErrorView>,
    fields: Seq<Field>,
    predicate: Option<P>,
    specs: Option<Seq<ScanAggregation>>,
    strict: bool,
    ceiling: Option<usize>,
    k: int,
    e: ErrorView,
)
    requires
        0 <= k < pending.len(),
        k < batches_read(raw_rows(pending), ceiling),
        parts_upto(pending, predicate, specs, strict, k) is Ok,
        batch_part(pending[k], predicate, specs, strict) == Err::<Seq<ColumnView>, ErrorView>(e),
    ensures
        scan_of(pending, failure, fields, predicate, specs, strict, ceiling) == Err::<
            Seq<ColumnView>,
            ErrorView,
        >(e),
        batches_pulled(pending, predicate, specs, strict, ceiling) == k + 1,
{
    let read = batches_read(raw_rows(pending), ceiling);
    lemma_parts_error_stays(pending, predicate, specs, strict, k + 1, read);
    lemma_first_failing(pending, predicate, specs, strict, read);
}

/// A scan that has buffered for all the batches it reads has pulled those
/// batches and no more.
pub proof fn lemma_scan_pulls_what_it_reads<P: RowPredicate>(
    pending: Seq<Batch>,
    predicate: Option<P>,
    specs: Option<Seq<ScanAggregation>>,
    strict: bool,
    ceiling: Option<usize>,
)
    requires
        parts_upto(
            pending,
            predicate,
            specs,
            strict,
            batches_read(raw_rows(pending), ceiling),
        ) is Ok,
    ensures
        batches_pulled(pending, predicate, specs, strict, ceiling) == batches_read(
            raw_rows(pending),
            ceiling,
        ),
{
    lemma_read_from_bounds(raw_rows(pending), ceiling, 0);
    lemma_first_failing(
        pending,
        predicate,
        specs,
        strict,
        batches_read(raw_rows(pending), ceiling),
    );
}

/// Whether a scan knows beforehand what its source and its predicate hand
/// back: both are modelled, and the batches can be counted in a `usize`.
pub open spec fn foreseen<S: BatchSource, P: RowPredicate>(
    source: S,
    predicate: Option<P>,
) -> bool {
    &&& source.modelled()
    &&& source.pending().len() < usize::MAX
    &&& predicate matches Some(p) ==> p.modelled()
}

/// Pulls batches from `source` until it is exhausted, fails, or the raw rows
/// read reach `stop_after_n_rows`, and returns the table of the scan. Each
/// batch is converted, filtered by the predicate if there is one, and buffered
/// as it is or as the partial results of `aggregate`; the ceiling is tested
/// after each batch and the table assembled at the end. The first error ends
/// the scan. At most `usize::MAX` batches are read.
///
/// Where the source and the predicate are modelled, the result is
/// [`scan_of`] what the source has pending, and the source is left with the
/// batches that the scan did not pull ([`batches_pulled`]): none is pulled
/// after the batch that reaches the ceiling, nor after one that fails.
/// Whatever they hand back, a table that comes out has one column of at most
/// one row per reduction, and is rectangular without reductions and for a
/// strict scan. A table is always in one contiguous chunk per column, so
/// `rechunk` asks for what is so in any case.
pub fn scan_source<S: BatchSource, P: RowPredicate>(
    source: &mut S,
    rechunk: bool,
    stop_after_n_rows: Option<usize>,
    predicate: Option<P>,
    aggregate: Option<&[ScanAggregation]>,
    validation: Validation,
) -> (r: Result<Table, Error>)
    ensures
        foreseen(*old(source), predicate) ==> match scan_of(
            old(source).pending(),
            old(source).failure(),
            old(source).fields(),
            predicate,
            specs_of(aggregate),
            validation.strict(),
            stop_after_n_rows,
        ) {
            Ok(t) => r matches Ok(x) && x@ == t,
            Err(e) => r matches Err(x) && x@ == e,
        },
        foreseen(*old(source), predicate) ==> final(source).modelled()
            && final(source).fields() == old(source).fields()
            && final(source).failure() == old(source).failure()
            && final(source).pending() == old(source).pending().skip(
            batches_pulled(
                old(source).pending(),
                predicate,
                specs_of(aggregate),
                validation.strict(),
                stop_after_n_rows,
            ),
        ),
        r matches Ok(t) ==> match aggregate {
            Some(specs) => t@.len() == specs@.len() && (forall|i: int|
                0 <= i < t@.len() ==> (#[trigger] t@[i]).name == specs@[i].output_name()
                    && t@[i].values.len() <= 1) && (validation.strict() ==> rectangular(t@)),
            None => rectangular(t@),
        },
{
    let ghost known = foreseen(*source, predicate);
    let ghost pending = source.pending();
    let ghost failure = source.failure();
    let ghost fields = source.fields();
    let ghost rows = raw_rows(pending);
    let ghost specs = specs_of(aggregate);
    let ghost strict = validation.strict();
    let ghost read = batches_read(rows, stop_after_n_rows);
    let mut state = Scan::new();
    proof {
        assert(rows.take(0) =~= Seq::<usize>::empty());
        assert(pending.skip(0) =~= pending);
        lemma_read_from_bounds(rows, stop_after_n_rows, 0);
    }
    while state.parts.len() < usize::MAX
        invariant_except_break
            known ==> read_from(rows, stop_after_n_rows, state.parts@.len() as int) == read,
            known && state.parts@.len() > 0 ==> !at_ceiling(state.n_rows, stop_after_n_rows),
        invariant
            aggregate is None ==> all_rectangular(state.tables()),
            known == foreseen(*old(source), predicate),
            pending == old(source).pending(),
            failure == old(source).failure(),
            fields == old(source).fields(),
            rows == raw_rows(pending),
            specs == specs_of(aggregate),
            strict == validation.strict(),
            read == batches_read(rows, stop_after_n_rows),
            0 <= read <= pending.len(),
            known ==> pending.len() < usize::MAX,
            known ==> (predicate matches Some(p) ==> p.modelled()),
            known ==> source.modelled() && source.fields() == fields && source.failure() == failure,
            known ==> state.parts@.len() <= pending.len() && source.pending() == pending.skip(
                state.parts@.len() as int,
            ),
            known ==> parts_upto(pending, predicate, specs, strict, state.parts@.len() as int)
                == Ok::<Seq<Seq<ColumnView>>, ErrorView>(state.tables()),
            known ==> state.n_rows == counted(rows.take(state.parts@.len() as int)),
        ensures
            aggregate is None ==> all_rectangular(state.tables()),
            known ==> source.modelled() && source.fields() == fields && source.failure() == failure,
            known ==> source.pending() == pending.skip(read),
            known ==> parts_upto(pending, predicate, specs, strict, read) == Ok::<
                Seq<Seq<ColumnView>>,
                ErrorView,
            >(state.tables()),
            known && failure is Some ==> !pulls_past_end(rows, stop_after_n_rows),
        decreases usize::MAX - state.parts.len(),
    {
        let ghost k = state.parts@.len() as int;
        let batch = match source.pull() {
            Err(e) => {
                proof {
                    if known {
                        assert(pending.skip(k).len() == 0);
                        assert(rows.take(k) =~= rows.take(read));
                        lemma_scan_pulls_what_it_reads(
                            pending,
                            predicate,
                            specs,
                            strict,
                            stop_after_n_rows,
                        );
                    }
                }
                return Err(e);
            },
            Ok(None) => {
                proof {
                    if known {
                        assert(pending.skip(k).len() == 0);
                    }
                }
                break ;
            },
            Ok(Some(batch)) => batch,
        };
        proof {
            if known {
                assert(pending.skip(k).len() > 0);
                assert(batch == pending[k]);
                lemma_read_from_bounds(rows, stop_after_n_rows, k);
                assert(pending.skip(k).skip(1) =~= pending.skip(k + 1));
            }
            lemma_assembly_checks(batch_columns(batch));
        }
        let raw = batch.num_rows();
        let ghost taken = batch;
        let mut df = match Table::try_from(batch) {
            Err(e) => {
                proof {
                    if known {
                        lemma_scan_fails_at(
                            pending,
                            failure,
                            fields,
                            predicate,
                            specs,
                            strict,
                            stop_after_n_rows,
                            k,
                            e@,
                        );
                    }
                }
                return Err(e);
            },
            Ok(df) => df,
        };
        if let Some(p) = &predicate {
            let outcome = p.evaluate(&df);
            df = match apply_predicate(&df, outcome) {
                Err(e) => {
                    proof {
                        if known {
                            lemma_scan_fails_at(
                                pending,
                                failure,
                                fields,
                                predicate,
                                specs,
                                strict,
                                stop_after_n_rows,
                                k,
                                e@,
                            );
                        }
                    }
                    return Err(e);
                },
                Ok(kept) => kept,
            };
        }
        match state.absorb(raw, df, aggregate, validation) {
            Err(e) => {
                proof {
                    if known {
                        lemma_scan_fails_at(
                            pending,
                            failure,
                            fields,
                            predicate,
                            specs,
                            strict,
                            stop_after_n_rows,
                            k,
                            e@,
                        );
                    }
                }
                return Err(e);
            },
            Ok(()) => {},
        }
        proof {
            if known {
                assert(rows.take(k + 1).drop_last() =~= rows.take(k));
                assert(rows.take(k + 1).last() == rows[k]);
                assert(rows[k] == raw);
            }
        }
        if state.reached(stop_after_n_rows) {
            break ;
        }
    }
    let schema = source.schema();
    proof {
        lemma_scan_result_shape(state.tables(), schema.fields@, specs, strict);
        if known {
            lemma_scan_pulls_what_it_reads(pending, predicate, specs, strict, stop_after_n_rows);
        }
    }
    state.finish(&schema, aggregate, validation)
}

proof fn lemma_read_from_stops(rows: Seq<usize>, ceiling: Option<usize>, k: int)
    requires
        0 <= k <= rows.len(),
    ensures
        forall|j: int|
            k < j < read_from(rows, ceiling, k) ==> !at_ceiling(
                #[trigger] counted(rows.take(j)),
                ceiling,
            ),
        read_from(rows, ceiling, k) < rows.len() ==> at_ceiling(
            counted(rows.take(read_from(rows, ceiling, k))),
            ceiling,
        ),
    decreases rows.len() - k,
{
    if k < rows.len() && !at_ceiling(counted(rows.take(k + 1)), ceiling) {
        lemma_read_from_stops(rows, ceiling, k + 1);
        lemma_read_from_bounds(rows, ceiling, k + 1);
    }
}

/// A scan stops at the first batch at which the raw rows read reach the
/// ceiling, and reads that batch whole: it reads at least one batch if there
/// is one; before every batch but the first, the rows read were below the
/// ceiling; and if batches are left, the rows read have reached it. Without a
/// ceiling every batch is read.
pub proof fn law_scan_stops_at_ceiling(rows: Seq<usize>, ceiling: Option<usize>)
    ensures
        0 <= batches_read(rows, ceiling) <= rows.len(),
        rows.len() > 0 ==> batches_read(rows, ceiling) >= 1,
        match ceiling {
            None => batches_read(rows, ceiling) == rows.len(),
            Some(n) => (forall|j: int|
                0 < j < batches_read(rows, ceiling) ==> #[trigger] rows_total(rows.take(j)) < n)
                && (batches_read(rows, ceiling) < rows.len() ==> rows_total(
                rows.take(batches_read(rows, ceiling)),
            ) >= n),
        },
{
    let read = batches_read(rows, ceiling);
    lemma_read_from_bounds(rows, ceiling, 0);
    lemma_read_from_stops(rows, ceiling, 0);
    match ceiling {
        None => {
            if read < rows.len() {
                assert(at_ceiling(counted(rows.take(read)), ceiling));
            }
        },
        Some(n) => {
            assert forall|j: int| 0 < j < read implies #[trigger] rows_total(rows.take(j)) < n by {
                assert(!at_ceiling(counted(rows.take(j)), ceiling));
                law_counter_reaches_ceiling_with_rows(rows.take(j), n);
            }
            if read < rows.len() {
                law_counter_reaches_ceiling_with_rows(rows.take(read), n);
            }
        },
    }
}

/// Where no batch fails, a scan buffers for each batch what it buffers for
/// that batch alone, in arrival order.
pub proof fn lemma_parts_in_arrival_order<P: RowPredicate>(
    pending: Seq<Batch>,
    predicate: Option<P>,
    specs: Option<Seq<ScanAggregation>>,
    strict: bool,
    n: int,
)
    requires
        0 <= n <= pending.len(),
        forall|k: int|
            0 <= k < n ==> (#[trigger] batch_part(pending[k], predicate, specs, strict)) is Ok,
    ensures
        parts_upto(pending, predicate, specs, strict, n) == Ok::<
            Seq<Seq<ColumnView>>,
            ErrorView,
        >(Seq::new(n as nat, |k: int| batch_part(pending[k], predicate, specs, strict)->Ok_0)),
    decreases n,
{
    if n > 0 {
        lemma_parts_in_arrival_order(pending, predicate, specs, strict, n - 1);
        let before = Seq::new(
            (n - 1) as nat,
            |k: int| batch_part(pending[k], predicate, specs, strict)->Ok_0,
        );
        let all = Seq::new(
            n as nat,
            |k: int| batch_part(pending[k], predicate, specs, strict)->Ok_0,
        );
        assert(batch_part(pending[n - 1], predicate, specs, strict) is Ok);
        assert(before.push(batch_part(pending[n - 1], predicate, specs, strict)->Ok_0) =~= all);
    } else {
        assert(Seq::new(
            n as nat,
            |k: int| batch_part(pending[k], predicate, specs, strict)->Ok_0,
        ) =~= Seq::<Seq<ColumnView>>::empty());
    }
}

/// Without a predicate and without reductions, the table of a scan is the
/// tables of the batches it reads, stacked in arrival order: all batches, or
/// with a ceiling those up to and with the first at which the raw rows read
/// reach it. `tables` are the batches read, converted.
pub proof fn law_plain_scan_stacks_batches_read<P: RowPredicate>(
    pending: Seq<Batch>,
    fields: Seq<Field>,
    strict: bool,
    ceiling: Option<usize>,
    tables: Seq<Seq<ColumnView>>,
)
    requires
        tables.len() == batches_read(raw_rows(pending), ceiling),
        forall|k: int|
            0 <= k < tables.len() ==> converted(pending[k]) == Ok::<Seq<ColumnView>, ErrorView>(
                #[trigger] tables[k],
            ),
    ensures
        scan_of(pending, None, fields, None::<P>, None, strict, ceiling) == concatenated(
            tables,
            fields,
        ),
        tables.len() > 0 && same_width(tables) && same_types(tables) ==> (scan_of(
            pending,
            None,
            fields,
            None::<P>,
            None,
            strict,
            ceiling,
        ) matches Ok(t) && t.len() == tables[0].len() && forall|i: int|
            0 <= i < t.len() ==> (#[trigger] t[i]).name == tables[0][i].name && t[i].values
                == joined(column_parts(tables, i))),
{
    let read = batches_read(raw_rows(pending), ceiling);
    lemma_read_from_bounds(raw_rows(pending), ceiling, 0);
    assert forall|k: int| 0 <= k < read implies (#[trigger] batch_part(
        pending[k],
        None::<P>,
        None,
        strict,
    )) is Ok by {
        assert(converted(pending[k]) == Ok::<Seq<ColumnView>, ErrorView>(tables[k]));
    }
    lemma_parts_in_arrival_order(pending, None::<P>, None, strict, read);
    let parts = Seq::new(
        read as nat,
        |k: int| batch_part(pending[k], None::<P>, None, strict)->Ok_0,
    );
    assert(parts =~= tables) by {
        assert forall|k: int| 0 <= k < read implies parts[k] == tables[k] by {
            assert(converted(pending[k]) == Ok::<Seq<ColumnView>, ErrorView>(tables[k]));
        }
    }
    if tables.len() > 0 && same_width(tables) && same_types(tables) {
        law_scan_keeps_rows_in_arrival_order(tables, fields, strict);
    }
}

} // verus!
