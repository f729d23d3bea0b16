//! Batch ingestion: turns the batches of a source into one table, with an
//! optional row filter, optional streaming reductions and an optional ceiling
//! on the raw rows read.

use vstd::prelude::*;
use std::sync::Arc;
use crate::column::ColumnView;
use crate::driver::scan_of;
use crate::driver::scan_source;
use crate::error::ErrorView;
use crate::scan::specs_of;
use crate::source::mask_of;
use crate::source::pulled;
use crate::source::ReaderSource;
use crate::source::PreparedPredicate;
use crate::table::rectangular;

pub mod aggregate;
pub mod cell;
pub mod column;
pub mod driver;
pub mod error;
pub mod kernels;
pub mod scan;
pub mod source;
pub mod table;

pub use crate::aggregate::ScanAggregation;
pub use crate::cell::Cell;
pub use crate::cell::DataType;
pub use crate::cell::Field;
pub use crate::column::Column;
pub use crate::error::Error;
pub use crate::scan::Scan;
pub use crate::scan::Series;
pub use crate::scan::Validation;
pub use crate::source::BatchQueue;
pub use crate::source::QueueReader;
pub use crate::table::Batch;
pub use crate::table::Schema;
pub use crate::table::Table;

verus! {

/// A row predicate prepared ahead of the scan. Evaluating it yields one
/// boolean per row of the table and leaves the table as it is. A predicate
/// is modelled when the mask it gives for a table is known beforehand; one
/// that says nothing of itself is not.
pub trait PhysicalIoExpr: Send + Sync {
    /// Whether `mask` says what the predicate will hand back.
    open spec fn modelled(&self) -> bool {
        false
    }

    /// The mask for a table, or the error of the evaluation.
    open spec fn mask(&self, t: Seq<ColumnView>) -> Result<Seq<bool>, ErrorView> {
        Err(ErrorView::PredicateType)
    }

    /// Evaluates the predicate on a table.
    fn evaluate(&self, df: &Table) -> (r: Result<Series, Error>)
        ensures
            self.modelled() ==> mask_of(r) == self.mask(df@),
    ;
}

/// A reader of one format, bound to its source.
pub trait SerReader<R>: Sized {
    /// The source that the reader is bound to.
    spec fn source(&self) -> R;

    /// Whether the reader is asked to bring its table into a single chunk per
    /// column after reading.
    spec fn rechunks(&self) -> bool;

    /// A reader bound to `reader`, which does not rechunk.
    fn new(reader: R) -> (r: Self)
        ensures
            r.source() == reader,
            !r.rechunks(),
    ;

    /// Rechunk to a single chunk after reading: the same reader, bound to the
    /// same source, with the flag recorded.
    fn set_rechunk(self, rechunk: bool) -> (r: Self)
        ensures
            r.rechunks() == rechunk,
            r.source() == self.source(),
    ;

    /// Take the reader and return the table it parses.
    fn finish(self) -> Result<Table, Error>;
}

/// A writer of one format, bound to its sink.
pub trait SerWriter<'a, W>: Sized {
    fn new(writer: &'a mut W) -> Self;

    fn finish(self, df: &mut Table) -> Result<(), Error>;
}

/// A source of batches that share one schema. A reader is modelled when the
/// batches it will hand out are known beforehand; one that says nothing of
/// itself is not, and a scan then knows nothing of what it hands out.
pub trait ArrowReader {
    /// Whether `pending`, `failure` and `fields` say what the reader will hand
    /// out.
    open spec fn modelled(&self) -> bool {
        false
    }

    /// The batches still to come, in order.
    open spec fn pending(&self) -> Seq<Batch> {
        Seq::empty()
    }

    /// The error with which the reader fails once the pending batches are
    /// handed out, if it ends in a failure.
    open spec fn failure(&self) -> Option<ErrorView> {
        None
    }

    /// The fields of the schema.
    open spec fn fields(&self) -> Seq<Field> {
        Seq::empty()
    }

    /// The next batch, or `None` when the source is exhausted.
    fn next_record_batch(&mut self) -> (r: Result<Option<Batch>, Error>)
        ensures
            old(self).modelled() ==> final(self).modelled() && final(self).fields() == old(
                self,
            ).fields() && final(self).failure() == old(self).failure() && pulled(
                old(self).pending(),
                old(self).failure(),
                r,
                final(self).pending(),
            ),
    ;

    /// The schema that all batches share.
    fn schema(&self) -> (r: Arc<Schema>)
        ensures
            self.modelled() ==> r.fields@ == self.fields(),
    ;
}

/// The predicate as a scan takes it.
pub open spec fn prepared<E>(predicate: Option<E>) -> Option<PreparedPredicate<E>> {
    match predicate {
        Some(expr) => Some(PreparedPredicate { expr }),
        None => None,
    }
}

/// Pulls batches from `reader` until it is exhausted, fails, or the raw rows
/// read reach `stop_after_n_rows`, and returns the table of the scan: see
/// [`scan_source`], which does the work. Each batch is converted, filtered by
/// the predicate if there is one, and buffered as it is or as the partial
/// results of `aggregate`; the ceiling is tested after each batch and the
/// table assembled at the end. The first error ends the scan.
///
/// Where the reader and the predicate are modelled, the result is [`scan_of`]
/// what the reader has pending. Whatever they hand back, a table that comes
/// out has one column of at most one row per reduction, and is rectangular
/// without reductions and for a strict scan. A table is always in one
/// contiguous chunk per column, so `rechunk` asks for what is so in any case.
pub fn finish_reader<R: ArrowReader>(
    reader: R,
    rechunk: bool,
    stop_after_n_rows: Option<usize>,
    predicate: Option<Arc<dyn PhysicalIoExpr>>,
    aggregate: Option<&[ScanAggregation]>,
    validation: Validation,
) -> (r: Result<Table, Error>)
    ensures
        reader.modelled() && reader.pending().len() < usize::MAX && (predicate matches Some(p)
            ==> p.modelled()) ==> match scan_of(
            reader.pending(),
            reader.failure(),
            reader.fields(),
            prepared(predicate),
            specs_of(aggregate),
            validation.strict(),
            stop_after_n_rows,
        ) {
            Ok(t) => r matches Ok(x) && x@ == t,
            Err(e) => r matches Err(x) && x@ == e,
        },
        r matches Ok(t) ==> match aggregate {
            Some(specs) => t@.len() == specs@.len() && (forall|i: int|
                0 <= i < t@.len() ==> (#[trigger] t@[i]).name == specs@[i].output_name()
                    && t@[i].values.len() <= 1) && (validation.strict() ==> rectangular(t@)),
            None => rectangular(t@),
        },
{
    let mut source = ReaderSource { reader };
    let predicate = match predicate {
        Some(expr) => Some(PreparedPredicate { expr }),
        None => None,
    };
    scan_source(&mut source, rechunk, stop_after_n_rows, predicate, aggregate, validation)
}

} // verus!
