//! A named, typed column of nullable cells.

use vstd::prelude::*;
use crate::cell::copy_cell;
use crate::cell::copy_cells;
use crate::cell::Cell;
use crate::cell::DataType;

verus! {

/// A column as contracts see it: its name, its type and its cells in row
/// order.
pub struct ColumnView {
    pub name: Seq<char>,
    pub dtype: DataType,
    pub values: Seq<Option<Cell>>,
}

/// One column of a table. Its cells lie in one vector, so a column is always
/// in one contiguous chunk. The cells of a column built from a batch are of the
/// column's type.
#[derive(Debug, Clone, PartialEq, Eq)]
pub struct Column {
    pub name: String,
    pub dtype: DataType,
    pub values: Vec<Option<Cell>>,
}

impl View for Column {
    type V = ColumnView;

    open spec fn view(&self) -> ColumnView {
        ColumnView { name: self.name@, dtype: self.dtype, values: self.values@ }
    }
}

impl Column {
    /// A column of these cells.
    pub fn new(name: String, dtype: DataType, values: Vec<Option<Cell>>) -> (r: Column)
        ensures
            r@ == (ColumnView { name: name@, dtype, values: values@ }),
    {
        Column { name, dtype, values }
    }

    /// The number of rows.
    pub fn len(&self) -> (r: usize)
        ensures
            r == self@.values.len(),
    {
        self.values.len()
    }

    /// A copy of the column.
    pub fn duplicate(&self) -> (r: Column)
        ensures
            r@ == self@,
    {
        Column { name: self.name.clone(), dtype: self.dtype, values: copy_cells(&self.values) }
    }

    /// The same cells under another name.
    pub fn rename(&mut self, name: &String)
        ensures
            final(self)@ == (ColumnView {
                name: name@,
                dtype: old(self)@.dtype,
                values: old(self)@.values,
            }),
    {
        self.name = name.clone();
    }

    /// The rows of `self` followed by the rows of `other`, under the name and
    /// the type of `self`.
    pub fn append(&self, other: &Column) -> (r: Column)
        ensures
            r@ == (ColumnView {
                name: self@.name,
                dtype: self@.dtype,
                values: self@.values + other@.values,
            }),
    {
        let mut values = copy_cells(&self.values);
        let mut i: usize = 0;
        while i < other.values.len()
            invariant
                i <= other.values.len(),
                values@ == self.values@ + other.values@.take(i as int),
            decreases other.values.len() - i,
        {
            values.push(copy_cell(&other.values[i]));
            proof {
                assert(other.values@.take(i + 1) =~= other.values@.take(i as int).push(
                    other.values@[i as int],
                ));
                assert(values@ =~= self.values@ + other.values@.take(i + 1));
            }
            i += 1;
        }
        proof {
            assert(other.values@.take(other.values.len() as int) =~= other.values@);
        }
        Column { name: self.name.clone(), dtype: self.dtype, values }
    }
}

} // verus!
