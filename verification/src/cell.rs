//! Cells: the values that a column holds, and their types. Integers go
//! through the kernels of `polars_core`; booleans and strings are copied and
//! picked here.

use vstd::prelude::*;
use crate::kernels::head_of;
use crate::kernels::kept;
use crate::kernels::tail_of;

verus! {

/// The type of a column.
#[derive(Debug, Clone, Copy, PartialEq, Eq, Structural)]
pub enum DataType {
    Int64,
    Boolean,
    Utf8,
}

/// A value in a column. A null cell is `None` of it.
#[derive(Debug, Clone, PartialEq, Eq)]
pub enum Cell {
    Int64(i64),
    Boolean(bool),
    Utf8(String),
}

/// A column name with the column's type.
#[derive(Debug, Clone, PartialEq, Eq)]
pub struct Field {
    pub name: String,
    pub dtype: DataType,
}

/// The type of a value.
pub open spec fn type_of(cell: Cell) -> DataType {
    match cell {
        Cell::Int64(_) => DataType::Int64,
        Cell::Boolean(_) => DataType::Boolean,
        Cell::Utf8(_) => DataType::Utf8,
    }
}

/// Every value among the cells is of this type.
pub open spec fn conforms(values: Seq<Option<Cell>>, dtype: DataType) -> bool {
    forall|i: int|
        0 <= i < values.len() && (#[trigger] values[i]) is Some ==> type_of(values[i]->Some_0)
            == dtype
}

/// A cell as an integer cell: its value if it holds an integer, null else.
pub open spec fn int_of(cell: Option<Cell>) -> Option<i64> {
    match cell {
        Some(Cell::Int64(v)) => Some(v),
        _ => None,
    }
}

/// The cells as integer cells: what is no integer counts as null.
pub open spec fn ints_of(values: Seq<Option<Cell>>) -> Seq<Option<i64>> {
    values.map_values(|c: Option<Cell>| int_of(c))
}

/// An integer cell as a cell.
pub open spec fn cell_of(v: Option<i64>) -> Option<Cell> {
    match v {
        Some(x) => Some(Cell::Int64(x)),
        None => None,
    }
}

/// Integer cells as cells.
pub open spec fn cells_of(ints: Seq<Option<i64>>) -> Seq<Option<Cell>> {
    ints.map_values(|v: Option<i64>| cell_of(v))
}

/// Cells that hold integers only are their integer cells, taken as cells.
pub proof fn lemma_cells_of_ints(values: Seq<Option<Cell>>)
    requires
        conforms(values, DataType::Int64),
    ensures
        cells_of(ints_of(values)) == values,
{
    assert forall|i: int| 0 <= i < values.len() implies cells_of(ints_of(values))[i]
        == values[i] by {
        if values[i] is Some {
            assert(type_of(values[i]->Some_0) == DataType::Int64);
        }
    }
    assert(cells_of(ints_of(values)) =~= values);
}

/// Selecting rows of integer cells and taking them as cells is selecting rows
/// of the cells.
pub proof fn lemma_kept_cells(ints: Seq<Option<i64>>, mask: Seq<bool>)
    ensures
        cells_of(kept(ints, mask)) == kept(cells_of(ints), mask),
    decreases ints.len(),
{
    if ints.len() > 0 {
        lemma_kept_cells(ints.drop_last(), mask);
        assert(cells_of(ints).drop_last() =~= cells_of(ints.drop_last()));
        assert(cells_of(kept(ints, mask)) =~= kept(cells_of(ints), mask));
    } else {
        assert(cells_of(kept(ints, mask)) =~= kept(cells_of(ints), mask));
    }
}

impl Cell {
    /// A copy of the value.
    pub fn duplicate(&self) -> (r: Cell)
        ensures
            r == *self,
    {
        match self {
            Cell::Int64(v) => Cell::Int64(*v),
            Cell::Boolean(b) => Cell::Boolean(*b),
            Cell::Utf8(s) => Cell::Utf8(s.clone()),
        }
    }

    /// The type of the value.
    pub fn data_type(&self) -> (r: DataType)
        ensures
            r == type_of(*self),
    {
        match self {
            Cell::Int64(_) => DataType::Int64,
            Cell::Boolean(_) => DataType::Boolean,
            Cell::Utf8(_) => DataType::Utf8,
        }
    }
}

/// A copy of a cell.
pub fn copy_cell(cell: &Option<Cell>) -> (r: Option<Cell>)
    ensures
        r == *cell,
{
    match cell {
        Some(c) => Some(c.duplicate()),
        None => None,
    }
}

/// A copy of a vector of cells.
pub fn copy_cells(cells: &Vec<Option<Cell>>) -> (r: Vec<Option<Cell>>)
    ensures
        r@ == cells@,
{
    let mut out: Vec<Option<Cell>> = Vec::new();
    let mut i: usize = 0;
    while i < cells.len()
        invariant
            i <= cells.len(),
            out@ == cells@.take(i as int),
        decreases cells.len() - i,
    {
        out.push(copy_cell(&cells[i]));
        proof {
            assert(cells@.take(i + 1) =~= cells@.take(i as int).push(cells@[i as int]));
        }
        i += 1;
    }
    proof {
        assert(cells@.take(cells.len() as int) =~= cells@);
    }
    out
}

/// Whether every value among the cells is of this type.
pub fn cells_conform(cells: &Vec<Option<Cell>>, dtype: DataType) -> (r: bool)
    ensures
        r == conforms(cells@, dtype),
{
    let mut i: usize = 0;
    while i < cells.len()
        invariant
            i <= cells.len(),
            forall|k: int|
                0 <= k < i && (#[trigger] cells@[k]) is Some ==> type_of(cells@[k]->Some_0)
                    == dtype,
        decreases cells.len() - i,
    {
        match &cells[i] {
            Some(c) => {
                if c.data_type() != dtype {
                    return false;
                }
            },
            None => {},
        }
        i += 1;
    }
    true
}

/// The cells as integer cells: what is no integer counts as null.
pub fn to_ints(cells: &Vec<Option<Cell>>) -> (r: Vec<Option<i64>>)
    ensures
        r@ == ints_of(cells@),
{
    let mut out: Vec<Option<i64>> = Vec::new();
    let mut i: usize = 0;
    while i < cells.len()
        invariant
            i <= cells.len(),
            out@ == ints_of(cells@).take(i as int),
        decreases cells.len() - i,
    {
        let v = match &cells[i] {
            Some(Cell::Int64(v)) => Some(*v),
            _ => None,
        };
        out.push(v);
        proof {
            assert(ints_of(cells@).take(i + 1) =~= ints_of(cells@).take(i as int).push(
                int_of(cells@[i as int]),
            ));
        }
        i += 1;
    }
    proof {
        assert(ints_of(cells@).take(cells.len() as int) =~= ints_of(cells@));
    }
    out
}

/// Integer cells as cells.
pub fn from_ints(ints: &Vec<Option<i64>>) -> (r: Vec<Option<Cell>>)
    ensures
        r@ == cells_of(ints@),
{
    let mut out: Vec<Option<Cell>> = Vec::new();
    let mut i: usize = 0;
    while i < ints.len()
        invariant
            i <= ints.len(),
            out@ == cells_of(ints@).take(i as int),
        decreases ints.len() - i,
    {
        let c = match ints[i] {
            Some(v) => Some(Cell::Int64(v)),
            None => None,
        };
        out.push(c);
        proof {
            assert(cells_of(ints@).take(i + 1) =~= cells_of(ints@).take(i as int).push(
                cell_of(ints@[i as int]),
            ));
        }
        i += 1;
    }
    proof {
        assert(cells_of(ints@).take(ints.len() as int) =~= cells_of(ints@));
    }
    out
}

/// The cells at the rows where the mask is true, in row order. Integer cells
/// are filtered by the kernel; cells of other types are picked one by one.
pub fn filter_cells(cells: &Vec<Option<Cell>>, mask: &Vec<bool>) -> (r: Vec<Option<Cell>>)
    requires
        mask@.len() == cells@.len(),
    ensures
        r@ == kept(cells@, mask@),
{
    if cells_conform(cells, DataType::Int64) {
        let ints = to_ints(cells);
        let picked = crate::kernels::filter(&ints, mask);
        proof {
            lemma_cells_of_ints(cells@);
            lemma_kept_cells(ints@, mask@);
        }
        from_ints(&picked)
    } else {
        let mut out: Vec<Option<Cell>> = Vec::new();
        let mut i: usize = 0;
        while i < cells.len()
            invariant
                i <= cells.len(),
                mask@.len() == cells@.len(),
                out@ == kept(cells@.take(i as int), mask@),
            decreases cells.len() - i,
        {
            proof {
                assert(cells@.take(i + 1).drop_last() =~= cells@.take(i as int));
            }
            if mask[i] {
                out.push(copy_cell(&cells[i]));
            }
            i += 1;
        }
        proof {
            assert(cells@.take(cells.len() as int) =~= cells@);
        }
        out
    }
}

/// The first cell, if there is one. Integer cells go through the kernel.
pub fn first_cells(cells: &Vec<Option<Cell>>) -> (r: Vec<Option<Cell>>)
    ensures
        r@ == head_of(cells@, 1),
{
    if cells_conform(cells, DataType::Int64) {
        let ints = to_ints(cells);
        let first = crate::kernels::head(&ints, 1);
        proof {
            lemma_cells_of_ints(cells@);
            assert(cells_of(head_of(ints@, 1)) =~= head_of(cells_of(ints@), 1));
        }
        from_ints(&first)
    } else {
        let mut out: Vec<Option<Cell>> = Vec::new();
        if cells.len() > 0 {
            out.push(copy_cell(&cells[0]));
        }
        proof {
            assert(out@ =~= head_of(cells@, 1));
        }
        out
    }
}

/// The last cell, if there is one. Integer cells go through the kernel.
pub fn last_cells(cells: &Vec<Option<Cell>>) -> (r: Vec<Option<Cell>>)
    ensures
        r@ == tail_of(cells@, 1),
{
    if cells_conform(cells, DataType::Int64) {
        let ints = to_ints(cells);
        let last = crate::kernels::tail(&ints, 1);
        proof {
            lemma_cells_of_ints(cells@);
            assert(cells_of(tail_of(ints@, 1)) =~= tail_of(cells_of(ints@), 1));
        }
        from_ints(&last)
    } else {
        let mut out: Vec<Option<Cell>> = Vec::new();
        if cells.len() > 0 {
            out.push(copy_cell(&cells[cells.len() - 1]));
        }
        proof {
            assert(out@ =~= tail_of(cells@, 1));
        }
        out
    }
}

} // verus!
