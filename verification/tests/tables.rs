use polars_io::aggregate::ScanAggregation;
use polars_io::column::Column;
use polars_io::error::Error;
use polars_io::kernels::running_sums_fit;
use polars_io::scan::accumulate_tables_vertical;
use polars_io::scan::apply_predicate;
use polars_io::scan::reduce_table;
use polars_io::scan::Scan;
use polars_io::scan::Series;
use polars_io::scan::Validation;
use polars_io::table::Batch;
use polars_io::table::Schema;
use polars_io::table::Table;
use polars_io::Cell;
use polars_io::DataType;
use polars_io::Field;

trait Ints {
    fn ints(&self) -> Vec<Option<i64>>;
}

impl Ints for Vec<Option<Cell>> {
    fn ints(&self) -> Vec<Option<i64>> {
        self.iter()
            .map(|c| match c {
                Some(Cell::Int64(v)) => Some(*v),
                None => None,
                Some(other) => panic!("{:?} is no integer", other),
            })
            .collect()
    }
}

fn lift(values: &[Option<i64>]) -> Vec<Option<Cell>> {
    values.iter().map(|v| v.map(Cell::Int64)).collect()
}

fn int_fields(names: Vec<String>) -> Vec<Field> {
    names.into_iter().map(|name| Field { name, dtype: DataType::Int64 }).collect()
}

fn int_batch(names: Vec<String>, columns: Vec<Vec<Option<i64>>>) -> Batch {
    Batch { fields: int_fields(names), columns: columns.iter().map(|c| lift(c)).collect() }
}

fn int_schema(names: Vec<String>) -> Schema {
    Schema { fields: int_fields(names) }
}


fn ints(values: &[i64]) -> Vec<Option<i64>> {
    values.iter().map(|v| Some(*v)).collect()
}

fn col(name: &str, values: Vec<Option<i64>>) -> Column {
    Column::new(name.to_string(), DataType::Int64, lift(&values))
}

fn table(columns: &[(&str, Vec<Option<i64>>)]) -> Table {
    Table::new(columns.iter().map(|(n, v)| col(n, v.clone())).collect()).unwrap()
}

fn name(text: &str) -> String {
    text.to_string()
}

fn agg(kind: &str, column: &str, alias: Option<&str>) -> ScanAggregation {
    let column = column.to_string();
    let alias = alias.map(|a| a.to_string());
    match kind {
        "sum" => ScanAggregation::Sum { column, alias },
        "min" => ScanAggregation::Min { column, alias },
        "max" => ScanAggregation::Max { column, alias },
        "first" => ScanAggregation::First { column, alias },
        "last" => ScanAggregation::Last { column, alias },
        other => panic!("no reduction called {}", other),
    }
}

#[test]
fn column_new_holds_its_cells() {
    let c = col("x", ints(&[1, 2, 3]));
    assert_eq!(c.name, "x");
    assert_eq!(c.values.ints(), ints(&[1, 2, 3]));
    assert_eq!(c.len(), 3);
    let e = col("e", vec![]);
    assert_eq!(e.len(), 0);
}

#[test]
fn column_append_keeps_rows_in_order() {
    let a = col("a", vec![Some(1), None]);
    let b = col("b", ints(&[3]));
    let ab = a.append(&b);
    assert_eq!(ab.name, "a");
    assert_eq!(ab.values.ints(), vec![Some(1), None, Some(3)]);
    let aba = ab.append(&a);
    assert_eq!(aba.values.ints(), vec![Some(1), None, Some(3), Some(1), None]);
    assert_eq!(aba.name, "a");
    assert_eq!(aba.len(), 5);
}

#[test]
fn column_rename_and_duplicate() {
    let mut a = col("a", ints(&[1])).append(&col("b", ints(&[2])));
    let copy = a.duplicate();
    assert_eq!(copy, a);
    a.rename(&name("z"));
    assert_eq!(a.name, "z");
    assert_eq!(a.values.ints(), ints(&[1, 2]));
    assert_eq!(copy.name, "a");
}

#[test]
fn table_new_checks_lengths_then_names() {
    let ok = Table::new(vec![col("x", ints(&[1, 2])), col("y", ints(&[3, 4]))]).unwrap();
    assert_eq!(ok.width(), 2);
    assert_eq!(ok.height(), 2);
    assert_eq!(Table::new(vec![]).unwrap().height(), 0);
    assert_eq!(
        Table::new(vec![col("x", ints(&[1, 2])), col("y", ints(&[3]))]),
        Err(Error::ShapeMismatch)
    );
    assert_eq!(
        Table::new(vec![col("x", ints(&[1])), col("y", ints(&[3])), col("x", ints(&[5]))]),
        Err(Error::Duplicate(name("x")))
    );
    assert_eq!(
        Table::new(vec![col("x", ints(&[1])), col("x", ints(&[3, 4]))]),
        Err(Error::ShapeMismatch)
    );
    assert_eq!(
        Table::new(vec![col("x", ints(&[1])), col("x", ints(&[3])), col("y", ints(&[]))]),
        Err(Error::Duplicate(name("x")))
    );
}

#[test]
fn table_new_no_checks_takes_anything() {
    let t = Table::new_no_checks(vec![col("x", ints(&[1, 2])), col("x", ints(&[3]))]);
    assert_eq!(t.width(), 2);
    assert_eq!(t.height(), 2);
    assert_eq!(t.columns[1].values.ints(), ints(&[3]));
    assert!(!t.is_rectangular());
    let same = Table::new_no_checks(vec![col("x", ints(&[1, 2])), col("x", ints(&[3, 4]))]);
    assert!(same.is_rectangular());
    assert!(Table::new_no_checks(vec![]).is_rectangular());
}

#[test]
fn table_column_finds_the_first_of_a_name() {
    let t = Table::new_no_checks(vec![
        col("a", ints(&[1])),
        col("b", ints(&[2])),
        col("b", ints(&[3])),
    ]);
    assert_eq!(t.column(&name("b")).unwrap().values.ints(), ints(&[2]));
    assert_eq!(t.column(&name("a")).unwrap().values.ints(), ints(&[1]));
    assert_eq!(t.column(&name("c")), Err(Error::ColumnNotFound(name("c"))));
    assert_eq!(t.column(&name("")), Err(Error::ColumnNotFound(name(""))));
}

#[test]
fn table_filter_keeps_selected_rows() {
    let t = table(&[("x", vec![Some(1), None, Some(3)]), ("y", ints(&[10, 20, 30]))]);
    let f = t.filter(&vec![true, true, false]).unwrap();
    assert_eq!(f.columns[0].values.ints(), vec![Some(1), None]);
    assert_eq!(f.columns[1].values.ints(), ints(&[10, 20]));
    assert_eq!(f.columns[0].name, "x");
    let none = t.filter(&vec![false, false, false]).unwrap();
    assert_eq!(none.height(), 0);
    assert_eq!(none.width(), 2);
    let all = t.filter(&vec![true, true, true]).unwrap();
    assert_eq!(all, t);
    assert_eq!(t.filter(&vec![true]), Err(Error::ShapeMismatch));
    assert_eq!(t.filter(&vec![]), Err(Error::ShapeMismatch));
    let single = table(&[("x", ints(&[7]))]);
    assert_eq!(single.filter(&vec![false]).unwrap().columns[0].values.ints(), vec![]);
    assert_eq!(single.filter(&vec![true]).unwrap().columns[0].values.ints(), ints(&[7]));
    let empty = table(&[("x", vec![])]);
    assert_eq!(empty.filter(&vec![]).unwrap().columns[0].values.ints(), vec![]);
    assert_eq!(Table::new(vec![]).unwrap().filter(&vec![true]).unwrap().width(), 0);
}

#[test]
fn table_vstack_appends_rows() {
    let a = table(&[("x", ints(&[1])), ("y", ints(&[2]))]);
    let b = table(&[("p", ints(&[3, 4])), ("q", vec![None, Some(6)])]);
    let ab = a.vstack(&b).unwrap();
    assert_eq!(ab.columns[0].name, "x");
    assert_eq!(ab.columns[0].values.ints(), ints(&[1, 3, 4]));
    assert_eq!(ab.columns[1].values.ints(), vec![Some(2), None, Some(6)]);
    let narrow = table(&[("x", ints(&[1]))]);
    assert_eq!(a.vstack(&narrow), Err(Error::ShapeMismatch));
    assert_eq!(narrow.vstack(&a), Err(Error::ShapeMismatch));
}

#[test]
fn table_empty_and_duplicate() {
    let a = table(&[("x", ints(&[1]))]);
    let stacked = a.vstack(&a).unwrap().vstack(&a).unwrap();
    assert_eq!(stacked.columns[0].values.ints(), ints(&[1, 1, 1]));
    let empty = Table::empty(&int_schema(vec![name("a"), name("b")]));
    assert_eq!(empty.width(), 2);
    assert_eq!(empty.height(), 0);
    assert_eq!(empty.columns[1].name, "b");
    assert_eq!(stacked.duplicate(), stacked);
}

#[test]
fn batch_rows_and_conversion() {
    let b = int_batch(vec![name("x"), name("y")], vec![ints(&[1, 2]), ints(&[3, 4])]);
    assert_eq!(b.num_rows(), 2);
    let t = Table::try_from(b).unwrap();
    assert_eq!(t, table(&[("x", ints(&[1, 2])), ("y", ints(&[3, 4]))]));
    let none = int_batch(vec![], vec![]);
    assert_eq!(none.num_rows(), 0);
    assert_eq!(Table::try_from(none).unwrap().width(), 0);
    let short = int_batch(vec![name("x"), name("y")], vec![ints(&[1])]);
    assert_eq!(Table::try_from(short), Err(Error::SchemaMismatch));
}

#[test]
fn evaluate_batch_gives_partial_results() {
    let t = table(&[("x", vec![Some(4), None, Some(-7), Some(12)]), ("y", vec![None; 4])]);
    let partial = |kind: &str, column: &str| {
        agg(kind, column, Some("ignored")).evaluate_batch(&t).map(|c| (c.name, c.values.ints()))
    };
    assert_eq!(partial("sum", "x"), Ok((name("x"), vec![Some(9)])));
    assert_eq!(partial("min", "x"), Ok((name("x"), vec![Some(-7)])));
    assert_eq!(partial("max", "x"), Ok((name("x"), vec![Some(12)])));
    assert_eq!(partial("first", "x"), Ok((name("x"), vec![Some(4)])));
    assert_eq!(partial("last", "x"), Ok((name("x"), vec![Some(12)])));
    assert_eq!(partial("sum", "y"), Ok((name("y"), vec![None])));
    assert_eq!(partial("min", "y"), Ok((name("y"), vec![None])));
    assert_eq!(partial("max", "y"), Ok((name("y"), vec![None])));
    assert_eq!(partial("first", "y"), Ok((name("y"), vec![None])));
    assert_eq!(partial("last", "y"), Ok((name("y"), vec![None])));
    assert_eq!(partial("sum", "z"), Err(Error::ColumnNotFound(name("z"))));
    assert_eq!(partial("last", "z"), Err(Error::ColumnNotFound(name("z"))));
}

#[test]
fn evaluate_batch_on_no_rows() {
    let t = table(&[("x", vec![])]);
    assert_eq!(agg("sum", "x", None).evaluate_batch(&t).unwrap().values.ints(), vec![None]);
    assert_eq!(agg("min", "x", None).evaluate_batch(&t).unwrap().values.ints(), vec![None]);
    assert_eq!(agg("max", "x", None).evaluate_batch(&t).unwrap().values.ints(), vec![None]);
    assert_eq!(agg("first", "x", None).evaluate_batch(&t).unwrap().values.ints(), vec![]);
    assert_eq!(agg("last", "x", None).evaluate_batch(&t).unwrap().values.ints(), vec![]);
}

#[test]
fn finish_renames_to_the_alias() {
    let t = table(&[("x", ints(&[5, 1, 3]))]);
    let done = agg("max", "x", Some("top")).finish(&t).unwrap();
    assert_eq!(done.name, "top");
    assert_eq!(done.values.ints(), ints(&[5]));
    let plain = agg("last", "x", None).finish(&t).unwrap();
    assert_eq!(plain.name, "x");
    assert_eq!(plain.values.ints(), ints(&[3]));
    assert_eq!(agg("min", "x", Some("low")).finish(&t).unwrap().values.ints(), ints(&[1]));
    assert_eq!(agg("sum", "x", Some("all")).finish(&t).unwrap().values.ints(), ints(&[9]));
    assert_eq!(agg("first", "x", Some("one")).finish(&t).unwrap().values.ints(), ints(&[5]));
    assert_eq!(
        agg("sum", "w", Some("all")).finish(&t),
        Err(Error::ColumnNotFound(name("w")))
    );
}

#[test]
fn reduce_gives_overflow_only_for_sums() {
    let big = vec![Some(i64::MAX), Some(i64::MAX)];
    assert_eq!(agg("sum", "x", None).reduce(&lift(&big)).map(|c| c.ints()), Err(Error::Overflow));
    assert_eq!(agg("max", "x", None).reduce(&lift(&big)).map(|c| c.ints()), Ok(vec![Some(i64::MAX)]));
    assert_eq!(agg("min", "x", None).reduce(&lift(&big)).map(|c| c.ints()), Ok(vec![Some(i64::MAX)]));
    assert_eq!(agg("first", "x", None).reduce(&lift(&big)).map(|c| c.ints()), Ok(vec![Some(i64::MAX)]));
    assert_eq!(agg("last", "x", None).reduce(&lift(&big)).map(|c| c.ints()), Ok(vec![Some(i64::MAX)]));
    let low = vec![Some(i64::MIN), None, Some(-1)];
    assert_eq!(agg("sum", "x", None).reduce(&lift(&low)).map(|c| c.ints()), Err(Error::Overflow));
    assert_eq!(agg("min", "x", None).reduce(&lift(&low)).map(|c| c.ints()), Ok(vec![Some(i64::MIN)]));
}

#[test]
fn running_sums_fit_looks_at_every_prefix() {
    assert!(running_sums_fit(&vec![]));
    assert!(running_sums_fit(&vec![None, None]));
    assert!(running_sums_fit(&vec![Some(i64::MAX), Some(-1), Some(1)]));
    assert!(running_sums_fit(&vec![Some(i64::MIN), Some(i64::MAX), Some(0)]));
    assert!(!running_sums_fit(&vec![Some(i64::MAX), Some(1), Some(-1)]));
    assert!(!running_sums_fit(&vec![Some(-1), None, Some(i64::MIN)]));
}

#[test]
fn accessors_of_a_reduction() {
    let a = agg("sum", "x", Some("t"));
    assert_eq!(a.column_name(), "x");
    assert_eq!(a.alias(), &Some(name("t")));
    let b = agg("first", "y", None);
    assert_eq!(b.column_name(), "y");
    assert_eq!(b.alias(), &None);
}

#[test]
fn series_bool_tells_masks_from_other_columns() {
    assert_eq!(Series::Boolean(vec![true, false]).bool(), Ok(&vec![true, false]));
    assert_eq!(Series::Cells(lift(&vec![Some(1)])).bool(), Err(Error::PredicateType));
}

#[test]
fn apply_predicate_by_outcome() {
    let t = table(&[("x", ints(&[1, 2, 3]))]);
    let kept = apply_predicate(&t, Ok(Series::Boolean(vec![false, true, true]))).unwrap();
    assert_eq!(kept.columns[0].values.ints(), ints(&[2, 3]));
    assert_eq!(
        apply_predicate(&t, Ok(Series::Cells(lift(&ints(&[1, 0, 1]))))),
        Err(Error::PredicateType)
    );
    assert_eq!(
        apply_predicate(&t, Err(Error::Predicate(name("boom")))),
        Err(Error::Predicate(name("boom")))
    );
    assert_eq!(
        apply_predicate(&t, Err(Error::Overflow)),
        Err(Error::Overflow)
    );
    assert_eq!(
        apply_predicate(&t, Ok(Series::Boolean(vec![true, true]))),
        Err(Error::ShapeMismatch)
    );
}

#[test]
fn reduce_table_partial_and_final() {
    let t = table(&[("x", ints(&[1, 2, 3])), ("y", ints(&[7, 8, 9]))]);
    let specs = vec![agg("sum", "y", Some("total")), agg("first", "x", None)];
    let partial = reduce_table(&t, &specs, false, Validation::Strict).unwrap();
    assert_eq!(partial.columns[0].name, "y");
    assert_eq!(partial.columns[0].values.ints(), ints(&[24]));
    assert_eq!(partial.columns[1].name, "x");
    assert_eq!(partial.columns[1].values.ints(), ints(&[1]));
    let last = reduce_table(&partial, &specs, true, Validation::Strict).unwrap();
    assert_eq!(last.columns[0].name, "total");
    assert_eq!(last.columns[0].values.ints(), ints(&[24]));
    assert_eq!(last.columns[1].name, "x");
    assert_eq!(
        reduce_table(&t, &specs[..1], true, Validation::Fast),
        Err(Error::ShapeMismatch)
    );
    let swapped = vec![agg("first", "x", None), agg("sum", "y", None)];
    assert_eq!(
        reduce_table(&partial, &swapped, true, Validation::Fast),
        Err(Error::ColumnNotFound(name("x")))
    );
    assert_eq!(reduce_table(&t, &[], false, Validation::Strict).unwrap().width(), 0);
}

#[test]
fn reduce_table_reports_the_first_failing_reduction() {
    let t = table(&[("x", vec![Some(i64::MAX), Some(1)])]);
    let specs = vec![agg("min", "x", None), agg("sum", "x", None), agg("max", "nope", None)];
    assert_eq!(reduce_table(&t, &specs, false, Validation::Fast), Err(Error::Overflow));
    let specs = vec![agg("max", "nope", None), agg("sum", "x", None)];
    assert_eq!(
        reduce_table(&t, &specs, false, Validation::Fast),
        Err(Error::ColumnNotFound(name("nope")))
    );
}

#[test]
fn accumulate_stacks_in_arrival_order() {
    let schema = int_schema(vec![name("x")]);
    let parts = vec![
        table(&[("x", ints(&[1, 2]))]),
        table(&[("x", vec![])]),
        table(&[("other", ints(&[3]))]),
    ];
    let all = accumulate_tables_vertical(&parts, &schema).unwrap();
    assert_eq!(all.columns[0].name, "x");
    assert_eq!(all.columns[0].values.ints(), ints(&[1, 2, 3]));
    let none = accumulate_tables_vertical(&vec![], &schema).unwrap();
    assert_eq!(none, Table::empty(&schema));
    let ragged = vec![table(&[("x", ints(&[1]))]), table(&[])];
    assert_eq!(accumulate_tables_vertical(&ragged, &schema), Err(Error::ShapeMismatch));
}

#[test]
fn scan_counts_raw_rows_and_buffers() {
    let mut scan = Scan::new();
    assert_eq!(scan.n_rows, 0);
    assert!(!scan.reached(None));
    assert!(scan.reached(Some(0)));
    assert!(!scan.reached(Some(1)));
    scan.absorb(5, table(&[("x", ints(&[1]))]), None, Validation::Strict).unwrap();
    assert_eq!(scan.n_rows, 5);
    assert_eq!(scan.parts.len(), 1);
    assert!(scan.reached(Some(5)));
    assert!(!scan.reached(Some(6)));
    assert!(!scan.reached(None));
    scan.absorb(usize::MAX, table(&[("x", ints(&[2]))]), None, Validation::Strict).unwrap();
    assert_eq!(scan.n_rows, usize::MAX);
    assert!(scan.reached(Some(usize::MAX)));
    scan.absorb(1, table(&[("x", ints(&[3]))]), None, Validation::Strict).unwrap();
    assert_eq!(scan.n_rows, usize::MAX);
    let out = scan.finish(&int_schema(vec![name("x")]), None, Validation::Strict);
    assert_eq!(out.unwrap().columns[0].values.ints(), ints(&[1, 2, 3]));
}

#[test]
fn scan_is_unchanged_by_a_failed_absorb() {
    let mut scan = Scan::new();
    let specs = vec![agg("sum", "nope", None)];
    scan.absorb(2, table(&[("x", ints(&[1, 2]))]), None, Validation::Strict).unwrap();
    let failed = scan.absorb(2, table(&[("x", ints(&[3, 4]))]), Some(&specs), Validation::Strict);
    assert_eq!(failed, Err(Error::ColumnNotFound(name("nope"))));
    assert_eq!(scan.n_rows, 2);
    assert_eq!(scan.parts.len(), 1);
}

#[test]
fn scan_with_reductions_buffers_partial_results() {
    let mut scan = Scan::new();
    let specs = vec![agg("sum", "x", Some("s")), agg("last", "x", Some("l"))];
    scan.absorb(2, table(&[("x", ints(&[1, 2]))]), Some(&specs), Validation::Fast).unwrap();
    scan.absorb(0, table(&[("x", vec![])]), Some(&specs), Validation::Fast).unwrap();
    scan.absorb(1, table(&[("x", ints(&[9]))]), Some(&specs), Validation::Fast).unwrap();
    assert_eq!(scan.n_rows, 3);
    assert_eq!(scan.parts[0].columns[0].values.ints(), ints(&[3]));
    assert_eq!(scan.parts[1].columns[0].values.ints(), vec![None]);
    assert_eq!(scan.parts[1].columns[1].values.ints(), vec![]);
    assert_eq!(scan.parts[2].columns[1].values.ints(), ints(&[9]));
    let out =
        scan.finish(&int_schema(vec![name("x")]), Some(&specs), Validation::Fast)
            .unwrap();
    assert_eq!(out.columns[0].name, "s");
    assert_eq!(out.columns[0].values.ints(), ints(&[12]));
    assert_eq!(out.columns[1].name, "l");
    assert_eq!(out.columns[1].values.ints(), ints(&[9]));
}
