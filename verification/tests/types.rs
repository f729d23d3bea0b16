use polars_io::finish_reader;
use polars_io::ArrowReader;
use polars_io::Batch;
use polars_io::BatchQueue;
use polars_io::Cell;
use polars_io::Column;
use polars_io::DataType;
use polars_io::Error;
use polars_io::Field;
use polars_io::PhysicalIoExpr;
use polars_io::ScanAggregation;
use polars_io::Schema;
use polars_io::Series;
use polars_io::Table;
use polars_io::Validation;
use std::collections::VecDeque;
use std::sync::Arc;

fn whole(v: i64) -> Option<Cell> {
    Some(Cell::Int64(v))
}

fn flag(v: bool) -> Option<Cell> {
    Some(Cell::Boolean(v))
}

fn text(v: &str) -> Option<Cell> {
    Some(Cell::Utf8(v.to_string()))
}

fn field(name: &str, dtype: DataType) -> Field {
    Field { name: name.to_string(), dtype }
}

fn people_fields() -> Vec<Field> {
    vec![
        field("name", DataType::Utf8),
        field("age", DataType::Int64),
        field("member", DataType::Boolean),
    ]
}

fn people(rows: &[(Option<&str>, Option<i64>, Option<bool>)]) -> Batch {
    Batch {
        fields: people_fields(),
        columns: vec![
            rows.iter().map(|r| r.0.map(|s| Cell::Utf8(s.to_string()))).collect(),
            rows.iter().map(|r| r.1.map(Cell::Int64)).collect(),
            rows.iter().map(|r| r.2.map(Cell::Boolean)).collect(),
        ],
    }
}

fn two_batches() -> VecDeque<Batch> {
    VecDeque::from(vec![
        people(&[(Some("ann"), Some(31), Some(true)), (None, Some(17), Some(false))]),
        people(&[
            (Some("bob"), None, None),
            (Some("cy"), Some(52), Some(true)),
            (Some("di"), Some(8), None),
        ]),
    ])
}

fn queue_of(batches: VecDeque<Batch>) -> BatchQueue {
    BatchQueue { schema: Schema { fields: people_fields() }, batches, failure: None }
}

fn reduction(kind: &str, column: &str) -> ScanAggregation {
    let column = column.to_string();
    match kind {
        "sum" => ScanAggregation::Sum { column, alias: None },
        "min" => ScanAggregation::Min { column, alias: None },
        "max" => ScanAggregation::Max { column, alias: None },
        "first" => ScanAggregation::First { column, alias: None },
        _ => ScanAggregation::Last { column, alias: None },
    }
}

struct Members;

impl PhysicalIoExpr for Members {
    fn evaluate(&self, df: &Table) -> Result<Series, Error> {
        let column = df.column(&"member".to_string())?;
        Ok(Series::Boolean(
            column.values.iter().map(|c| matches!(c, Some(Cell::Boolean(true)))).collect(),
        ))
    }
}

#[test]
fn batch_of_three_types_converts_to_a_table() {
    let table = Table::try_from(two_batches().pop_front().unwrap()).unwrap();
    assert_eq!(table.width(), 3);
    assert_eq!(table.height(), 2);
    assert_eq!(table.columns[0].name, "name");
    assert_eq!(table.columns[0].dtype, DataType::Utf8);
    assert_eq!(table.columns[0].values, vec![text("ann"), None]);
    assert_eq!(table.columns[1].dtype, DataType::Int64);
    assert_eq!(table.columns[1].values, vec![whole(31), whole(17)]);
    assert_eq!(table.columns[2].dtype, DataType::Boolean);
    assert_eq!(table.columns[2].values, vec![flag(true), flag(false)]);
}

#[test]
fn cell_of_another_type_is_type_mismatch() {
    let batch = Batch {
        fields: vec![field("age", DataType::Int64)],
        columns: vec![vec![whole(1), None, text("two")]],
    };
    assert_eq!(Table::try_from(batch), Err(Error::TypeMismatch));
    let batch = Batch {
        fields: vec![field("a", DataType::Boolean), field("a", DataType::Utf8)],
        columns: vec![vec![flag(true)], vec![flag(false)]],
    };
    assert_eq!(Table::try_from(batch), Err(Error::TypeMismatch));
    let batch = Batch {
        fields: vec![field("a", DataType::Boolean), field("a", DataType::Utf8)],
        columns: vec![vec![None, None], vec![None]],
    };
    assert_eq!(Table::try_from(batch), Err(Error::ShapeMismatch));
    let batch = Batch {
        fields: vec![field("a", DataType::Boolean)],
        columns: vec![vec![None], vec![None]],
    };
    assert_eq!(Table::try_from(batch), Err(Error::SchemaMismatch));
}

#[test]
fn filter_keeps_rows_of_every_type() {
    let table = Table::try_from(two_batches().pop_back().unwrap()).unwrap();
    let kept = table.filter(&vec![false, true, true]).unwrap();
    assert_eq!(kept.columns[0].values, vec![text("cy"), text("di")]);
    assert_eq!(kept.columns[1].values, vec![whole(52), whole(8)]);
    assert_eq!(kept.columns[2].values, vec![flag(true), None]);
    assert_eq!(kept.columns[0].dtype, DataType::Utf8);
    assert_eq!(kept.columns[2].dtype, DataType::Boolean);
    let none = table.filter(&vec![false, false, false]).unwrap();
    assert_eq!(none.columns[0].values, vec![]);
    assert_eq!(none.columns[2].values, vec![]);
    assert_eq!(table.filter(&vec![true, true, true]).unwrap(), table);
}

#[test]
fn tables_of_other_types_do_not_stack() {
    let a = Table::new(vec![Column::new("x".to_string(), DataType::Int64, vec![whole(1)])]).unwrap();
    let b =
        Table::new(vec![Column::new("x".to_string(), DataType::Utf8, vec![text("1")])]).unwrap();
    let c = Table::new(vec![Column::new("y".to_string(), DataType::Int64, vec![None])]).unwrap();
    assert_eq!(a.vstack(&b), Err(Error::TypeMismatch));
    assert_eq!(b.vstack(&a), Err(Error::TypeMismatch));
    let ac = a.vstack(&c).unwrap();
    assert_eq!(ac.columns[0].name, "x");
    assert_eq!(ac.columns[0].values, vec![whole(1), None]);
    let bb = b.vstack(&b).unwrap();
    assert_eq!(bb.columns[0].values, vec![text("1"), text("1")]);
    assert_eq!(bb.columns[0].dtype, DataType::Utf8);
    let wide = Table::new(vec![
        Column::new("x".to_string(), DataType::Utf8, vec![]),
        Column::new("y".to_string(), DataType::Utf8, vec![]),
    ])
    .unwrap();
    assert_eq!(a.vstack(&wide), Err(Error::ShapeMismatch));
}

#[test]
fn reductions_of_strings_and_booleans() {
    let table = Table::try_from(two_batches().pop_back().unwrap()).unwrap();
    for column in ["name", "member"] {
        for kind in ["sum", "min", "max"] {
            let reduced = reduction(kind, column).evaluate_batch(&table).unwrap();
            assert_eq!(reduced.values, vec![None]);
            assert_eq!(reduced.name, column);
        }
    }
    let first = reduction("first", "name").evaluate_batch(&table).unwrap();
    assert_eq!(first.values, vec![text("bob")]);
    assert_eq!(first.dtype, DataType::Utf8);
    let last = reduction("last", "name").evaluate_batch(&table).unwrap();
    assert_eq!(last.values, vec![text("di")]);
    let first = reduction("first", "member").evaluate_batch(&table).unwrap();
    assert_eq!(first.values, vec![None]);
    assert_eq!(first.dtype, DataType::Boolean);
    let last = reduction("last", "member").finish(&table).unwrap();
    assert_eq!(last.values, vec![None]);
    let sum = reduction("sum", "age").evaluate_batch(&table).unwrap();
    assert_eq!(sum.values, vec![whole(60)]);
    assert_eq!(sum.dtype, DataType::Int64);
}

#[test]
fn scan_of_three_types_keeps_rows_and_types() {
    let source = queue_of(two_batches());
    let table = finish_reader(source, false, None, None, None, Validation::Strict).unwrap();
    assert_eq!(table.height(), 5);
    assert_eq!(
        table.columns[0].values,
        vec![text("ann"), None, text("bob"), text("cy"), text("di")]
    );
    assert_eq!(table.columns[1].values, vec![whole(31), whole(17), None, whole(52), whole(8)]);
    assert_eq!(
        table.columns[2].values,
        vec![flag(true), flag(false), None, flag(true), None]
    );
    assert_eq!(table.columns[0].dtype, DataType::Utf8);
    assert_eq!(table.columns[1].dtype, DataType::Int64);
    assert_eq!(table.columns[2].dtype, DataType::Boolean);
}

#[test]
fn scan_of_three_types_with_predicate_and_reductions() {
    let source = queue_of(two_batches());
    let members: Arc<dyn PhysicalIoExpr> = Arc::new(Members);
    let table =
        finish_reader(source, false, None, Some(members.clone()), None, Validation::Strict)
            .unwrap();
    assert_eq!(table.columns[0].values, vec![text("ann"), text("cy")]);
    assert_eq!(table.columns[1].values, vec![whole(31), whole(52)]);
    let source = queue_of(two_batches());
    let specs = vec![
        reduction("sum", "age"),
        reduction("first", "name"),
        reduction("last", "name"),
        reduction("max", "name"),
        reduction("min", "age"),
    ];
    let table =
        finish_reader(source, true, None, Some(members), Some(&specs), Validation::Strict)
            .unwrap();
    assert_eq!(table.columns[0].values, vec![whole(83)]);
    assert_eq!(table.columns[1].values, vec![text("ann")]);
    assert_eq!(table.columns[2].values, vec![text("cy")]);
    assert_eq!(table.columns[3].values, vec![None]);
    assert_eq!(table.columns[3].dtype, DataType::Utf8);
    assert_eq!(table.columns[4].values, vec![whole(31)]);
}

#[test]
fn scan_of_no_batches_has_the_types_of_the_schema() {
    let mut source = queue_of(VecDeque::new());
    assert_eq!(source.next_record_batch(), Ok(None));
    let table = finish_reader(source, false, None, None, None, Validation::Strict).unwrap();
    assert_eq!(table.height(), 0);
    assert_eq!(table.columns[0].dtype, DataType::Utf8);
    assert_eq!(table.columns[1].dtype, DataType::Int64);
    assert_eq!(table.columns[2].dtype, DataType::Boolean);
    assert_eq!(table.columns[2].name, "member");
}

#[test]
fn scan_of_batches_of_other_types_is_type_mismatch() {
    let mut batches = two_batches();
    batches.push_back(Batch {
        fields: vec![
            field("name", DataType::Utf8),
            field("age", DataType::Utf8),
            field("member", DataType::Boolean),
        ],
        columns: vec![vec![text("eve")], vec![text("old")], vec![None]],
    });
    let result = finish_reader(queue_of(batches), false, None, None, None, Validation::Strict);
    assert_eq!(result, Err(Error::TypeMismatch));
}
