//! Batch sources and row predicates as a scan sees them: with what they will
//! hand back stated where it is known, and readers and prepared predicates
//! taken as sources and predicates of a scan.

use vstd::prelude::*;
use std::collections::VecDeque;
use std::sync::Arc;
use crate::cell::Field;
use crate::column::ColumnView;
use crate::error::Error;
use crate::error::ErrorView;
use crate::driver::scan_of;
use crate::scan::Series;
use crate::scan::Validation;
use crate::table::rectangular;
use crate::table::Batch;
use crate::table::Schema;
use crate::table::Table;
use crate::ArrowReader;
use crate::PhysicalIoExpr;
use crate::SerReader;

verus! {

/// What a pull from a source with these pending batches hands back, and what
/// is pending after it: the first batch; when there is none, the failure of
/// the source if it ends in one, or else `None`.
pub open spec fn pulled(
    before: Seq<Batch>,
    failure: Option<ErrorView>,
    r: Result<Option<Batch>, Error>,
    after: Seq<Batch>,
) -> bool {
    if before.len() > 0 {
        r == Ok::<Option<Batch>, Error>(Some(before[0])) && after == before.skip(1)
    } else {
        after == before && match failure {
            None => r == Ok::<Option<Batch>, Error>(None),
            Some(e) => r matches Err(x) && x@ == e,
        }
    }
}

/// A predicate's result as the rest of a scan reads it: the mask, the
/// predicate's own error, or `PredicateType` for a result that is no mask.
pub open spec fn mask_of(outcome: Result<Series, Error>) -> Result<Seq<bool>, ErrorView> {
    match outcome {
        Ok(Series::Boolean(mask)) => Ok(mask@),
        Ok(Series::Cells(_)) => Err(ErrorView::PredicateType),
        Err(e) => Err(e@),
    }
}

/// A source of batches for a scan. A source is modelled when the batches it
/// will hand out are known beforehand; of a source that is not, a scan knows
/// nothing.
pub trait BatchSource {
    /// Whether `pending`, `failure` and `fields` say what the source will hand
    /// out.
    spec fn modelled(&self) -> bool;

    /// The batches still to come, in order.
    spec fn pending(&self) -> Seq<Batch>;

    /// The error with which the source fails once the pending batches are
    /// handed out, if it ends in a failure.
    spec fn failure(&self) -> Option<ErrorView>;

    /// The fields of the schema.
    spec fn fields(&self) -> Seq<Field>;

    /// The next batch, or `None` when the source is exhausted.
    fn pull(&mut self) -> (r: Result<Option<Batch>, Error>)
        ensures
            old(self).modelled() ==> final(self).modelled() && final(self).fields() == old(
                self,
            ).fields() && final(self).failure() == old(self).failure() && pulled(
                old(self).pending(),
                old(self).failure(),
                r,
                final(self).pending(),
            ),
    ;

    /// The schema that all batches share.
    fn schema(&self) -> (r: Arc<Schema>)
        ensures
            self.modelled() ==> r.fields@ == self.fields(),
    ;
}

/// A row predicate for a scan. A predicate is modelled when the mask it gives
/// for a table is known beforehand.
pub trait RowPredicate {
    /// Whether `mask` says what the predicate will hand back.
    spec fn modelled(&self) -> bool;

    /// The mask for a table, or the error of the evaluation.
    spec fn mask(&self, t: Seq<ColumnView>) -> Result<Seq<bool>, ErrorView>;

    /// Evaluates the predicate on a table.
    fn evaluate(&self, df: &Table) -> (r: Result<Series, Error>)
        ensures
            self.modelled() ==> mask_of(r) == self.mask(df@),
    ;
}

/// A reader as a batch source: modelled where the reader is, it hands on
/// what the reader hands out.
pub struct ReaderSource<R> {
    pub reader: R,
}

impl<R: ArrowReader> BatchSource for ReaderSource<R> {
    open spec fn modelled(&self) -> bool {
        self.reader.modelled()
    }

    open spec fn pending(&self) -> Seq<Batch> {
        self.reader.pending()
    }

    open spec fn failure(&self) -> Option<ErrorView> {
        self.reader.failure()
    }

    open spec fn fields(&self) -> Seq<Field> {
        self.reader.fields()
    }

    fn pull(&mut self) -> (r: Result<Option<Batch>, Error>) {
        self.reader.next_record_batch()
    }

    fn schema(&self) -> (r: Arc<Schema>) {
        self.reader.schema()
    }
}

/// A prepared predicate as a row predicate: modelled where the prepared
/// predicate is, it hands on its result.
pub struct PreparedPredicate<E> {
    pub expr: E,
}

impl RowPredicate for PreparedPredicate<Arc<dyn PhysicalIoExpr>> {
    open spec fn modelled(&self) -> bool {
        self.expr.modelled()
    }

    open spec fn mask(&self, t: Seq<ColumnView>) -> Result<Seq<bool>, ErrorView> {
        self.expr.mask(t)
    }

    fn evaluate(&self, df: &Table) -> (r: Result<Series, Error>) {
        self.expr.evaluate(df)
    }
}

/// Batches held in memory, handed out front to back. A queue with a
/// `failure` fails with it, again and again, once the batches are handed out.
pub struct BatchQueue {
    pub schema: Schema,
    pub batches: VecDeque<Batch>,
    pub failure: Option<Error>,
}

/// An optional error as contracts see it.
pub open spec fn failure_view(failure: Option<Error>) -> Option<ErrorView> {
    match failure {
        Some(e) => Some(e@),
        None => None,
    }
}

impl ArrowReader for BatchQueue {
    open spec fn modelled(&self) -> bool {
        true
    }

    open spec fn pending(&self) -> Seq<Batch> {
        self.batches@
    }

    open spec fn failure(&self) -> Option<ErrorView> {
        failure_view(self.failure)
    }

    open spec fn fields(&self) -> Seq<Field> {
        self.schema.fields@
    }

    fn next_record_batch(&mut self) -> (r: Result<Option<Batch>, Error>) {
        BatchSource::pull(self)
    }

    fn schema(&self) -> (r: Arc<Schema>) {
        BatchSource::schema(self)
    }
}

impl BatchSource for BatchQueue {
    open spec fn modelled(&self) -> bool {
        true
    }

    open spec fn pending(&self) -> Seq<Batch> {
        self.batches@
    }

    open spec fn failure(&self) -> Option<ErrorView> {
        failure_view(self.failure)
    }

    open spec fn fields(&self) -> Seq<Field> {
        self.schema.fields@
    }

    fn pull(&mut self) -> (r: Result<Option<Batch>, Error>) {
        let next = self.batches.pop_front();
        proof {
            if old(self).batches@.len() > 0 {
                assert(old(self).batches@.subrange(1, old(self).batches@.len() as int)
                    =~= old(self).batches@.skip(1));
            }
        }
        match next {
            Some(batch) => Ok(Some(batch)),
            None => match &self.failure {
                Some(e) => Err(e.duplicate()),
                None => Ok(None),
            },
        }
    }

    fn schema(&self) -> (r: Arc<Schema>) {
        let mut fields: Vec<Field> = Vec::new();
        let mut i: usize = 0;
        while i < self.schema.fields.len()
            invariant
                i <= self.schema.fields.len(),
                fields@ == self.schema.fields@.take(i as int),
            decreases self.schema.fields.len() - i,
        {
            let field = &self.schema.fields[i];
            fields.push(Field { name: field.name.clone(), dtype: field.dtype });
            proof {
                assert(self.schema.fields@.take(i + 1) =~= self.schema.fields@.take(
                    i as int,
                ).push(self.schema.fields@[i as int]));
            }
            i += 1;
        }
        proof {
            assert(self.schema.fields@.take(self.schema.fields.len() as int)
                =~= self.schema.fields@);
        }
        Arc::new(Schema { fields })
    }
}

/// A reader of the batches of a queue: it scans all of them, without a
/// predicate and without reductions.
pub struct QueueReader {
    pub queue: BatchQueue,
    pub rechunk: bool,
}

impl SerReader<BatchQueue> for QueueReader {
    open spec fn source(&self) -> BatchQueue {
        self.queue
    }

    open spec fn rechunks(&self) -> bool {
        self.rechunk
    }

    fn new(reader: BatchQueue) -> (r: Self) {
        QueueReader { queue: reader, rechunk: false }
    }

    fn set_rechunk(self, rechunk: bool) -> (r: Self) {
        QueueReader { queue: self.queue, rechunk }
    }

    /// The table of the scan of the queue, the same whatever the flag: its
    /// columns are in one chunk each in any case.
    fn finish(self) -> (r: Result<Table, Error>)
        ensures
            self.queue.batches@.len() < usize::MAX ==> match scan_of(
                self.queue.batches@,
                failure_view(self.queue.failure),
                self.queue.schema.fields@,
                None::<PreparedPredicate<Arc<dyn PhysicalIoExpr>>>,
                None,
                true,
                None,
            ) {
                Ok(t) => r matches Ok(x) && x@ == t,
                Err(e) => r matches Err(x) && x@ == e,
            },
            r matches Ok(t) ==> rectangular(t@),
    {
        crate::finish_reader(self.queue, self.rechunk, None, None, None, Validation::Strict)
    }
}

} // verus!
