use polars_io::Column;
use polars_io::Error;
use polars_io::ScanAggregation;
use polars_io::Table;
use polars_io::Cell;
use polars_io::DataType;
use polars_io::Field;
use polars_io::Batch;
use polars_io::Schema;

trait Ints {
    fn ints(&self) -> Vec<Option<i64>>;
}

impl Ints for Vec<Option<Cell>> {
    fn ints(&self) -> Vec<Option<i64>> {
        self.iter()
            .map(|c| match c {
                Some(Cell::Int64(v)) => Some(*v),
                None => None,
                Some(other) => panic!("{:?} is no integer", other),
            })
            .collect()
    }
}

fn lift(values: &[Option<i64>]) -> Vec<Option<Cell>> {
    values.iter().map(|v| v.map(Cell::Int64)).collect()
}

fn int_fields(names: Vec<String>) -> Vec<Field> {
    names.into_iter().map(|name| Field { name, dtype: DataType::Int64 }).collect()
}

fn int_batch(names: Vec<String>, columns: Vec<Vec<Option<i64>>>) -> Batch {
    Batch { fields: int_fields(names), columns: columns.iter().map(|c| lift(c)).collect() }
}

fn int_schema(names: Vec<String>) -> Schema {
    Schema { fields: int_fields(names) }
}


fn long_column() -> Vec<Option<i64>> {
    (0..200i64).map(|i| if i % 7 == 3 { None } else { Some((i * 37) % 101 - 50) }).collect()
}

fn reduction(kind: u8) -> ScanAggregation {
    let column = "x".to_string();
    match kind {
        0 => ScanAggregation::Sum { column, alias: None },
        1 => ScanAggregation::Min { column, alias: None },
        2 => ScanAggregation::Max { column, alias: None },
        3 => ScanAggregation::First { column, alias: None },
        _ => ScanAggregation::Last { column, alias: None },
    }
}

#[test]
fn reductions_of_a_long_column_with_nulls() {
    let cells = long_column();
    let present: Vec<i64> = cells.iter().flatten().copied().collect();
    assert_eq!(reduction(0).reduce(&lift(&cells)).map(|c| c.ints()), Ok(vec![Some(present.iter().sum::<i64>())]));
    assert_eq!(reduction(1).reduce(&lift(&cells)).map(|c| c.ints()), Ok(vec![present.iter().min().copied()]));
    assert_eq!(reduction(2).reduce(&lift(&cells)).map(|c| c.ints()), Ok(vec![present.iter().max().copied()]));
    assert_eq!(reduction(3).reduce(&lift(&cells)).map(|c| c.ints()), Ok(vec![cells[0]]));
    assert_eq!(reduction(4).reduce(&lift(&cells)).map(|c| c.ints()), Ok(vec![cells[199]]));
}

#[test]
fn reductions_of_a_long_column_without_nulls() {
    let cells: Vec<Option<i64>> = (0..130i64).map(|i| Some(1000 - i * i)).collect();
    assert_eq!(reduction(0).reduce(&lift(&cells)).map(|c| c.ints()), Ok(vec![Some(130 * 1000 - 723_905)]));
    assert_eq!(reduction(1).reduce(&lift(&cells)).map(|c| c.ints()), Ok(vec![Some(1000 - 129 * 129)]));
    assert_eq!(reduction(2).reduce(&lift(&cells)).map(|c| c.ints()), Ok(vec![Some(1000)]));
    assert_eq!(reduction(3).reduce(&lift(&cells)).map(|c| c.ints()), Ok(vec![Some(1000)]));
    assert_eq!(reduction(4).reduce(&lift(&cells)).map(|c| c.ints()), Ok(vec![Some(1000 - 129 * 129)]));
}

#[test]
fn reductions_of_only_nulls() {
    let cells: Vec<Option<i64>> = vec![None; 70];
    assert_eq!(reduction(0).reduce(&lift(&cells)).map(|c| c.ints()), Ok(vec![None]));
    assert_eq!(reduction(1).reduce(&lift(&cells)).map(|c| c.ints()), Ok(vec![None]));
    assert_eq!(reduction(2).reduce(&lift(&cells)).map(|c| c.ints()), Ok(vec![None]));
    assert_eq!(reduction(3).reduce(&lift(&cells)).map(|c| c.ints()), Ok(vec![None]));
    assert_eq!(reduction(4).reduce(&lift(&cells)).map(|c| c.ints()), Ok(vec![None]));
}

#[test]
fn reductions_of_one_cell() {
    for cell in [Some(-3), None, Some(i64::MIN), Some(i64::MAX)] {
        let cells = vec![cell];
        for kind in 0..5 {
            assert_eq!(reduction(kind).reduce(&lift(&cells)).map(|c| c.ints()), Ok(vec![cell]));
        }
    }
}

#[test]
fn first_and_last_keep_a_null_row() {
    let cells = vec![None, Some(5), Some(6), None];
    assert_eq!(reduction(3).reduce(&lift(&cells)).map(|c| c.ints()), Ok(vec![None]));
    assert_eq!(reduction(4).reduce(&lift(&cells)).map(|c| c.ints()), Ok(vec![None]));
    assert_eq!(reduction(1).reduce(&lift(&cells)).map(|c| c.ints()), Ok(vec![Some(5)]));
    assert_eq!(reduction(2).reduce(&lift(&cells)).map(|c| c.ints()), Ok(vec![Some(6)]));
    assert_eq!(reduction(0).reduce(&lift(&cells)).map(|c| c.ints()), Ok(vec![Some(11)]));
}

#[test]
fn sum_overflow_depends_on_the_running_sums() {
    let fits = vec![Some(i64::MAX), Some(-1), None, Some(1)];
    assert_eq!(reduction(0).reduce(&lift(&fits)).map(|c| c.ints()), Ok(vec![Some(i64::MAX)]));
    let leaves = vec![Some(i64::MAX), Some(1), None, Some(-1)];
    assert_eq!(reduction(0).reduce(&lift(&leaves)).map(|c| c.ints()), Err(Error::Overflow));
}

#[test]
fn filter_of_a_long_column() {
    let cells = long_column();
    let mask: Vec<bool> = (0..200).map(|i| i % 3 != 1).collect();
    let expected: Vec<Option<i64>> =
        cells.iter().zip(mask.iter()).filter(|(_, keep)| **keep).map(|(c, _)| *c).collect();
    let table = Table::new(vec![Column::new("x".to_string(), DataType::Int64, lift(&cells))]).unwrap();
    let kept = table.filter(&mask).unwrap();
    assert_eq!(kept.columns[0].values.ints(), expected);
    assert_eq!(kept.columns[0].values.ints().len(), 133);
}
