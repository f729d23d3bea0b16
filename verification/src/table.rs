//! Tables: ordered collections of named columns, and the batches and schemas
//! they are made from.

use vstd::prelude::*;
use crate::cell::conforms;
use crate::cell::copy_cells;
use crate::cell::Cell;
use crate::cell::Field;
use crate::column::Column;
use crate::column::ColumnView;
use crate::error::Error;
use crate::error::ErrorView;
use crate::kernels::kept;

verus! {

/// An ordered collection of named, typed columns, each in one contiguous
/// chunk. A
/// table is meant to be rectangular
/// (see [`rectangular`]); [`Table::new`] checks it, [`Table::new_no_checks`] does
/// not, and [`Table::is_rectangular`] tells.
#[derive(Debug, Clone, PartialEq, Eq)]
pub struct Table {
    pub columns: Vec<Column>,
}

/// One decoded batch of rows: as many fields as columns, the columns equally
/// long, the cells of each column of its field's type.
#[derive(Debug, Clone, PartialEq, Eq)]
pub struct Batch {
    pub fields: Vec<Field>,
    pub columns: Vec<Vec<Option<Cell>>>,
}

/// The columns that every batch of one source shares, in order: the name and
/// the type of each.
#[derive(Debug, Clone, PartialEq, Eq)]
pub struct Schema {
    pub fields: Vec<Field>,
}

/// The views of a list of columns.
pub open spec fn columns_view(columns: Seq<Column>) -> Seq<ColumnView> {
    columns.map_values(|c: Column| c@)
}

/// The row count of a table: that of its first column, 0 without columns.
pub open spec fn height_of(t: Seq<ColumnView>) -> nat {
    if t.len() == 0 {
        0
    } else {
        t[0].values.len()
    }
}

/// All columns have the same number of rows.
pub open spec fn rectangular(t: Seq<ColumnView>) -> bool {
    forall|i: int| 0 <= i < t.len() ==> (#[trigger] t[i]).values.len() == height_of(t)
}

/// No two columns share a name.
pub open spec fn names_distinct(t: Seq<ColumnView>) -> bool {
    forall|i: int, j: int| 0 <= i < j < t.len() ==> (#[trigger] t[i]).name != (#[trigger] t[j]).name
}

/// The first of the first `n` columns that is called `name`.
pub open spec fn find_upto(t: Seq<ColumnView>, name: Seq<char>, n: int) -> Option<int>
    decreases n,
{
    if n <= 0 {
        None
    } else {
        match find_upto(t, name, n - 1) {
            Some(i) => Some(i),
            None => if t[n - 1].name == name {
                Some(n - 1)
            } else {
                None
            },
        }
    }
}

/// The position of the first column called `name`.
pub open spec fn find_column(t: Seq<ColumnView>, name: Seq<char>) -> Option<int> {
    find_upto(t, name, t.len() as int)
}

/// A column found among the first `k` columns is the one found among more.
pub proof fn lemma_find_stays(t: Seq<ColumnView>, name: Seq<char>, k: int, n: int)
    requires
        k <= n,
        find_upto(t, name, k).is_some(),
    ensures
        find_upto(t, name, n) == find_upto(t, name, k),
    decreases n - k,
{
    if k < n {
        lemma_find_stays(t, name, k, n - 1);
    }
}

/// What `find_upto` finds is the first column of that name, and it finds one
/// whenever there is one.
pub proof fn lemma_find_is_first(t: Seq<ColumnView>, name: Seq<char>, n: int)
    requires
        0 <= n <= t.len(),
    ensures
        match find_upto(t, name, n) {
            Some(i) => 0 <= i < n && t[i].name == name && forall|j: int|
                0 <= j < i ==> (#[trigger] t[j]).name != name,
            None => forall|j: int| 0 <= j < n ==> (#[trigger] t[j]).name != name,
        },
    decreases n,
{
    if n > 0 {
        lemma_find_is_first(t, name, n - 1);
    }
}

/// What is wrong with column `i` beside the columns before it, if anything:
/// another length than the first column, or a name that came before.
pub open spec fn column_fault(t: Seq<ColumnView>, i: int) -> Option<ErrorView> {
    if t[i].values.len() != t[0].values.len() {
        Some(ErrorView::ShapeMismatch)
    } else if exists|j: int| 0 <= j < i && (#[trigger] t[j]).name == t[i].name {
        Some(ErrorView::Duplicate(t[i].name))
    } else {
        None
    }
}

/// The first fault among the first `n` columns.
pub open spec fn fault_upto(t: Seq<ColumnView>, n: int) -> Option<ErrorView>
    decreases n,
{
    if n <= 0 {
        None
    } else {
        match fault_upto(t, n - 1) {
            Some(e) => Some(e),
            None => column_fault(t, n - 1),
        }
    }
}

/// Why these columns cannot be assembled into a checked table, if they cannot.
pub open spec fn assembly_fault(t: Seq<ColumnView>) -> Option<ErrorView> {
    fault_upto(t, t.len() as int)
}

/// A fault among the first `k` columns is the fault among more.
pub proof fn lemma_fault_stays(t: Seq<ColumnView>, k: int, n: int)
    requires
        k <= n,
        fault_upto(t, k).is_some(),
    ensures
        fault_upto(t, n) == fault_upto(t, k),
    decreases n - k,
{
    if k < n {
        lemma_fault_stays(t, k, n - 1);
    }
}

/// The first `n` columns are without fault exactly when each of them is.
pub proof fn lemma_fault_free(t: Seq<ColumnView>, n: int)
    requires
        0 <= n <= t.len(),
    ensures
        fault_upto(t, n).is_none() <==> forall|i: int|
            0 <= i < n ==> (#[trigger] column_fault(t, i)).is_none(),
    decreases n,
{
    if n > 0 {
        lemma_fault_free(t, n - 1);
    }
}

/// Columns can be assembled into a checked table exactly when they are equally
/// long and differently named.
pub proof fn lemma_assembly_checks(t: Seq<ColumnView>)
    ensures
        assembly_fault(t).is_none() <==> rectangular(t) && names_distinct(t),
{
    lemma_fault_free(t, t.len() as int);
    if assembly_fault(t).is_none() {
        assert forall|i: int| 0 <= i < t.len() implies (#[trigger] t[i]).values.len() == height_of(
            t,
        ) by {
            assert(column_fault(t, i).is_none());
        }
        assert forall|i: int, j: int| 0 <= i < j < t.len() implies (#[trigger] t[i]).name != (
        #[trigger] t[j]).name by {
            assert(column_fault(t, j).is_none());
        }
    }
    if rectangular(t) && names_distinct(t) {
        assert forall|i: int| 0 <= i < t.len() implies (#[trigger] column_fault(t, i)).is_none() by {
            assert(t[i].values.len() == height_of(t));
            assert(t[0].values.len() == height_of(t));
        }
    }
}

/// Every column has as many rows as the mask has entries.
pub open spec fn fits_mask(t: Seq<ColumnView>, mask: Seq<bool>) -> bool {
    forall|i: int| 0 <= i < t.len() ==> (#[trigger] t[i]).values.len() == mask.len()
}

/// The table with only the rows that the mask selects, in row order.
pub open spec fn filtered(t: Seq<ColumnView>, mask: Seq<bool>) -> Seq<ColumnView> {
    Seq::new(
        t.len(),
        |i: int|
            (ColumnView { name: t[i].name, dtype: t[i].dtype, values: kept(t[i].values, mask) }),
    )
}

/// The columns of `b` are, one by one, of the types of the columns of `a`.
pub open spec fn types_match(a: Seq<ColumnView>, b: Seq<ColumnView>) -> bool {
    forall|i: int| 0 <= i < a.len() ==> (#[trigger] a[i]).dtype == b[i].dtype
}

/// Why `b` cannot be stacked under `a`, if it cannot: the two differ in width,
/// or else two columns in type.
pub open spec fn stack_fault(a: Seq<ColumnView>, b: Seq<ColumnView>) -> Option<ErrorView> {
    if a.len() != b.len() {
        Some(ErrorView::ShapeMismatch)
    } else if !types_match(a, b) {
        Some(ErrorView::TypeMismatch)
    } else {
        None
    }
}

/// The rows of `a` followed by the rows of `b`, column by column, under the
/// names and the types of `a`.
pub open spec fn stacked(a: Seq<ColumnView>, b: Seq<ColumnView>) -> Seq<ColumnView> {
    Seq::new(
        a.len(),
        |i: int|
            (ColumnView {
                name: a[i].name,
                dtype: a[i].dtype,
                values: a[i].values + b[i].values,
            }),
    )
}

/// The table without rows whose columns have these names and types.
pub open spec fn empty_of(fields: Seq<Field>) -> Seq<ColumnView> {
    Seq::new(
        fields.len(),
        |i: int|
            (ColumnView { name: fields[i].name@, dtype: fields[i].dtype, values: Seq::empty() }),
    )
}

/// The columns of a batch, each under its name and type.
pub open spec fn batch_columns(batch: Batch) -> Seq<ColumnView> {
    Seq::new(
        batch.columns@.len(),
        |i: int|
            (ColumnView {
                name: batch.fields@[i].name@,
                dtype: batch.fields@[i].dtype,
                values: batch.columns@[i]@,
            }),
    )
}

/// The cells of every column are of the column's type.
pub open spec fn well_typed(t: Seq<ColumnView>) -> bool {
    forall|i: int| 0 <= i < t.len() ==> conforms((#[trigger] t[i]).values, t[i].dtype)
}

/// The table that a batch converts to, or why it converts to none: it has
/// more or fewer fields than columns, a cell is not of its column's type, or
/// the columns cannot be assembled.
pub open spec fn converted(batch: Batch) -> Result<Seq<ColumnView>, ErrorView> {
    if batch.fields@.len() != batch.columns@.len() {
        Err(ErrorView::SchemaMismatch)
    } else if !well_typed(batch_columns(batch)) {
        Err(ErrorView::TypeMismatch)
    } else {
        match assembly_fault(batch_columns(batch)) {
            Some(e) => Err(e),
            None => Ok(batch_columns(batch)),
        }
    }
}

/// Filtering a table by a mask that fits it leaves a rectangular table.
pub proof fn lemma_filtered_is_rectangular(t: Seq<ColumnView>, mask: Seq<bool>)
    requires
        fits_mask(t, mask),
    ensures
        rectangular(filtered(t, mask)),
{
    let f = filtered(t, mask);
    assert forall|i: int| 0 <= i < f.len() implies (#[trigger] f[i]).values.len() == height_of(
        f,
    ) by {
        assert(t[i].values.len() == mask.len());
        assert(t[0].values.len() == mask.len());
        crate::kernels::lemma_kept_len(t[i].values, t[0].values, mask);
    }
}

impl Batch {
    /// The raw row count of the batch: the length of its first column, 0
    /// without columns.
    pub open spec fn rows(&self) -> nat {
        if self.columns@.len() == 0 {
            0
        } else {
            self.columns@[0]@.len()
        }
    }

    /// The raw row count of the batch.
    pub fn num_rows(&self) -> (r: usize)
        ensures
            r == self.rows(),
    {
        if self.columns.len() == 0 {
            0
        } else {
            self.columns[0].len()
        }
    }
}

impl View for Table {
    type V = Seq<ColumnView>;

    open spec fn view(&self) -> Seq<ColumnView> {
        columns_view(self.columns@)
    }
}

impl Table {
    /// A table of these columns, unchecked: it may hold columns of different
    /// lengths or of the same name.
    pub fn new_no_checks(columns: Vec<Column>) -> (r: Table)
        ensures
            r.columns == columns,
    {
        Table { columns }
    }

    /// A table of these columns, if they are equally long and differently named.
    /// The first column that differs in length from the first, or repeats an
    /// earlier name, decides the error.
    pub fn new(columns: Vec<Column>) -> (r: Result<Table, Error>)
        ensures
            match assembly_fault(columns_view(columns@)) {
                Some(e) => r matches Err(x) && x@ == e,
                None => r matches Ok(t) && t.columns == columns,
            },
            r is Ok <==> rectangular(columns_view(columns@)) && names_distinct(
                columns_view(columns@),
            ),
    {
        let ghost t = columns_view(columns@);
        proof {
            lemma_assembly_checks(t);
        }
        let mut i: usize = 0;
        while i < columns.len()
            invariant
                i <= columns.len(),
                t == columns_view(columns@),
                fault_upto(t, i as int).is_none(),
            decreases columns.len() - i,
        {
            if columns[i].values.len() != columns[0].values.len() {
                proof {
                    assert(fault_upto(t, i + 1) == Some(ErrorView::ShapeMismatch));
                    lemma_fault_stays(t, i + 1, t.len() as int);
                }
                return Err(Error::ShapeMismatch);
            }
            let mut j: usize = 0;
            while j < i
                invariant
                    j <= i,
                    i < columns.len(),
                    t == columns_view(columns@),
                    fault_upto(t, i as int).is_none(),
                    t[i as int].values.len() == t[0].values.len(),
                    forall|k: int| 0 <= k < j ==> (#[trigger] t[k]).name != t[i as int].name,
                decreases i - j,
            {
                if columns[j].name == columns[i].name {
                    proof {
                        assert(t[j as int].name == t[i as int].name);
                        assert(column_fault(t, i as int) == Some(
                            ErrorView::Duplicate(t[i as int].name),
                        ));
                        assert(fault_upto(t, i + 1) == Some(ErrorView::Duplicate(t[i as int].name)));
                        lemma_fault_stays(t, i + 1, t.len() as int);
                    }
                    return Err(Error::Duplicate(columns[i].name.clone()));
                }
                j += 1;
            }
            proof {
                assert(column_fault(t, i as int).is_none());
            }
            i += 1;
        }
        Ok(Table { columns })
    }

    /// Whether all columns have the same number of rows.
    pub fn is_rectangular(&self) -> (r: bool)
        ensures
            r == rectangular(self@),
    {
        let mut i: usize = 0;
        while i < self.columns.len()
            invariant
                i <= self.columns.len(),
                forall|k: int| 0 <= k < i ==> (#[trigger] self@[k]).values.len() == height_of(self@),
            decreases self.columns.len() - i,
        {
            if self.columns[i].values.len() != self.columns[0].values.len() {
                proof {
                    assert(self@[i as int].values.len() != height_of(self@));
                }
                return false;
            }
            i += 1;
        }
        true
    }

    /// The number of columns.
    pub fn width(&self) -> (r: usize)
        ensures
            r == self@.len(),
    {
        self.columns.len()
    }

    /// The number of rows: that of the first column, 0 without columns.
    pub fn height(&self) -> (r: usize)
        ensures
            r == height_of(self@),
    {
        if self.columns.len() == 0 {
            0
        } else {
            self.columns[0].values.len()
        }
    }

    /// The first column called `name`.
    pub fn column(&self, name: &String) -> (r: Result<&Column, Error>)
        ensures
            match find_column(self@, name@) {
                Some(i) => r matches Ok(c) && *c == self.columns@[i],
                None => r matches Err(e) && e@ == ErrorView::ColumnNotFound(name@),
            },
    {
        let mut i: usize = 0;
        while i < self.columns.len()
            invariant
                i <= self.columns.len(),
                find_upto(self@, name@, i as int).is_none(),
            decreases self.columns.len() - i,
        {
            if self.columns[i].name == *name {
                proof {
                    assert(self@[i as int].name == name@);
                    assert(find_upto(self@, name@, i + 1) == Some(i as int));
                    lemma_find_stays(self@, name@, i + 1, self@.len() as int);
                }
                return Ok(&self.columns[i]);
            }
            i += 1;
        }
        Err(Error::ColumnNotFound(name.clone()))
    }

    /// The rows that the mask selects, in row order.
    /// Fails when a column and the mask differ in length.
    pub fn filter(&self, mask: &Vec<bool>) -> (r: Result<Table, Error>)
        ensures
            match r {
                Ok(t) => fits_mask(self@, mask@) && t@ == filtered(self@, mask@) && rectangular(t@),
                Err(e) => !fits_mask(self@, mask@) && e@ == ErrorView::ShapeMismatch,
            },
    {
        let mut out: Vec<Column> = Vec::new();
        let mut i: usize = 0;
        while i < self.columns.len()
            invariant
                i <= self.columns.len(),
                out@.len() == i,
                forall|k: int| 0 <= k < i ==> (#[trigger] self@[k]).values.len() == mask@.len(),
                forall|k: int|
                    0 <= k < i ==> (#[trigger] out@[k])@ == (ColumnView {
                        name: self@[k].name,
                        dtype: self@[k].dtype,
                        values: kept(self@[k].values, mask@),
                    }),
            decreases self.columns.len() - i,
        {
            let column = &self.columns[i];
            if column.values.len() != mask.len() {
                proof {
                    assert(self@[i as int].values.len() != mask@.len());
                }
                return Err(Error::ShapeMismatch);
            }
            let cells = crate::cell::filter_cells(&column.values, mask);
            out.push(Column::new(column.name.clone(), column.dtype, cells));
            i += 1;
        }
        let t = Table { columns: out };
        proof {
            assert(t@ =~= filtered(self@, mask@));
            lemma_filtered_is_rectangular(self@, mask@);
        }
        Ok(t)
    }

    /// The rows of `self` followed by the rows of `other`, column by column,
    /// under the names and the types of `self`. Fails with `ShapeMismatch` when
    /// the two tables differ in width, and with `TypeMismatch` when they are
    /// equally wide and two columns differ in type.
    pub fn vstack(&self, other: &Table) -> (r: Result<Table, Error>)
        ensures
            match stack_fault(self@, other@) {
                Some(e) => r matches Err(x) && x@ == e,
                None => r matches Ok(t) && t@ == stacked(self@, other@),
            },
    {
        if self.columns.len() != other.columns.len() {
            return Err(Error::ShapeMismatch);
        }
        let mut out: Vec<Column> = Vec::new();
        let mut i: usize = 0;
        while i < self.columns.len()
            invariant
                i <= self.columns.len(),
                self.columns.len() == other.columns.len(),
                out@.len() == i,
                forall|k: int| 0 <= k < i ==> (#[trigger] self@[k]).dtype == other@[k].dtype,
                forall|k: int|
                    0 <= k < i ==> (#[trigger] out@[k])@ == (ColumnView {
                        name: self@[k].name,
                        dtype: self@[k].dtype,
                        values: self@[k].values + other@[k].values,
                    }),
            decreases self.columns.len() - i,
        {
            if self.columns[i].dtype != other.columns[i].dtype {
                proof {
                    assert(self@[i as int].dtype != other@[i as int].dtype);
                }
                return Err(Error::TypeMismatch);
            }
            out.push(self.columns[i].append(&other.columns[i]));
            i += 1;
        }
        let t = Table { columns: out };
        proof {
            assert(t@ =~= stacked(self@, other@));
        }
        Ok(t)
    }

    /// A copy of the table.
    pub fn duplicate(&self) -> (r: Table)
        ensures
            r@ == self@,
    {
        let mut out: Vec<Column> = Vec::new();
        let mut i: usize = 0;
        while i < self.columns.len()
            invariant
                i <= self.columns.len(),
                out@.len() == i,
                forall|k: int| 0 <= k < i ==> (#[trigger] out@[k])@ == self@[k],
            decreases self.columns.len() - i,
        {
            out.push(self.columns[i].duplicate());
            i += 1;
        }
        let t = Table { columns: out };
        proof {
            assert(t@ =~= self@);
        }
        t
    }

    /// The table without rows that has the columns of the schema.
    pub fn empty(schema: &Schema) -> (r: Table)
        ensures
            r@ == empty_of(schema.fields@),
    {
        let mut out: Vec<Column> = Vec::new();
        let mut i: usize = 0;
        while i < schema.fields.len()
            invariant
                i <= schema.fields.len(),
                out@.len() == i,
                forall|k: int|
                    0 <= k < i ==> (#[trigger] out@[k])@ == (ColumnView {
                        name: schema.fields@[k].name@,
                        dtype: schema.fields@[k].dtype,
                        values: Seq::empty(),
                    }),
            decreases schema.fields.len() - i,
        {
            let field = &schema.fields[i];
            out.push(Column::new(field.name.clone(), field.dtype, Vec::new()));
            i += 1;
        }
        let t = Table { columns: out };
        proof {
            assert(t@ =~= empty_of(schema.fields@));
        }
        t
    }

    /// The table that holds the columns of a batch. Fails with
    /// `SchemaMismatch` when the batch has more or fewer fields than columns,
    /// with `TypeMismatch` when a cell is not of its column's type, and else as
    /// [`Table::new`] does.
    pub fn try_from(batch: Batch) -> (r: Result<Table, Error>)
        ensures
            match converted(batch) {
                Ok(t) => r matches Ok(x) && x@ == t,
                Err(e) => r matches Err(x) && x@ == e,
            },
    {
        if batch.fields.len() != batch.columns.len() {
            return Err(Error::SchemaMismatch);
        }
        let ghost all = batch_columns(batch);
        let mut out: Vec<Column> = Vec::new();
        let mut i: usize = 0;
        while i < batch.columns.len()
            invariant
                i <= batch.columns.len(),
                batch.fields.len() == batch.columns.len(),
                all == batch_columns(batch),
                out@.len() == i,
                forall|k: int| 0 <= k < i ==> conforms((#[trigger] all[k]).values, all[k].dtype),
                forall|k: int| 0 <= k < i ==> (#[trigger] out@[k])@ == all[k],
            decreases batch.columns.len() - i,
        {
            let field = &batch.fields[i];
            if !crate::cell::cells_conform(&batch.columns[i], field.dtype) {
                proof {
                    assert(!conforms(all[i as int].values, all[i as int].dtype));
                }
                return Err(Error::TypeMismatch);
            }
            out.push(Column::new(field.name.clone(), field.dtype, copy_cells(&batch.columns[i])));
            i += 1;
        }
        proof {
            assert(columns_view(out@) =~= all);
        }
        Table::new(out)
    }
}

} // verus!
