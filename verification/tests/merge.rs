//! MERGE INTO: classifying joined rows, and writing what is kept of them.

use std::collections::HashMap;
use std::sync::Arc;

use datafusion::arrow::array::{
    Array, ArrayData, ArrayRef, DictionaryArray, Int32Array, LargeStringArray, NullArray,
    RecordBatch, RunArray, StringArray, StringViewArray, make_array,
};
use datafusion::arrow::datatypes::{DataType, Field, Int32Type, Schema, TimeUnit};
use datafusion::error::DataFusionError;
use datafusion::physical_plan::empty::EmptyExec;
use datafusion::physical_plan::{ExecutionPlan, PhysicalExpr};
use iceberg::io::FileIO;
use iceberg::spec::{
    DataContentType, DataFile, DataFileBuilder, DataFileFormat, NestedField, PrimitiveType, Struct,
    TableMetadataBuilder, Type,
};
use iceberg::table::Table;
use iceberg::{TableCreation, TableIdent};
use iceberg_row_updates::batch::Batch;
use iceberg_row_updates::error::ExecError;
use iceberg_row_updates::files::{TableInfo, check_write_format};
use iceberg_row_updates::merge::{IcebergMergeExec, MergeRun};
use iceberg_row_updates::merge_rows::{classify_rows, insert_columns, update_columns};
use iceberg_row_updates::merge_write::{IcebergMergeWriteExec, MergeWriteRun, strip_file_column};
use iceberg_row_updates::node::{Boundedness, DisplayFormat, EmissionType, PlanInput};
use iceberg_row_updates::write_result::{
    DATA_FILES_COL_NAME, DELETED_FILES_COL_NAME, read_column,
};

fn table_with(properties: &[(&str, &str)]) -> Table {
    let schema = iceberg::spec::Schema::builder()
        .with_schema_id(0)
        .with_fields(vec![
            NestedField::required(1, "id", Type::Primitive(PrimitiveType::Int)).into(),
            NestedField::optional(2, "value", Type::Primitive(PrimitiveType::String)).into(),
        ])
        .build()
        .unwrap();
    let properties: HashMap<String, String> =
        properties.iter().map(|(key, value)| (key.to_string(), value.to_string())).collect();
    let creation = TableCreation::builder()
        .name("test_table".to_string())
        .location("memory://root/test_table".to_string())
        .schema(schema)
        .properties(properties)
        .build();
    let metadata = TableMetadataBuilder::from_table_creation(creation).unwrap().build().unwrap();
    Table::builder()
        .file_io(FileIO::new_with_memory())
        .metadata(metadata.metadata)
        .identifier(TableIdent::from_strs(["outer", "inner", "test_table"]).unwrap())
        .build()
        .unwrap()
}

fn table() -> Table {
    table_with(&[])
}

fn batch_of(batch: RecordBatch) -> Batch {
    let (schema, columns, row_count) = batch.into_parts();
    Batch { schema, columns: columns.iter().map(|column| column.to_data()).collect(), row_count }
}

fn batch(columns: Vec<(&str, ArrayRef)>) -> Batch {
    let named = columns.into_iter().map(|(name, column)| (name, column, true));
    batch_of(RecordBatch::try_from_iter_with_nullable(named).unwrap())
}

fn ints(values: Vec<Option<i32>>) -> ArrayRef {
    Arc::new(Int32Array::from(values))
}

fn strings(values: Vec<Option<&str>>) -> ArrayRef {
    Arc::new(StringArray::from(values))
}

fn column(batch: &Batch, i: usize) -> ArrayRef {
    make_array(batch.columns[i].clone())
}

fn joined() -> Batch {
    batch(vec![
        ("id", ints(vec![Some(1), None, Some(3)])),
        ("value", strings(vec![Some("a"), None, Some("c")])),
        ("source_id", ints(vec![Some(1), Some(2), None])),
        ("source_value", strings(vec![Some("x"), Some("y"), None])),
    ])
}

/// Expressions are the names of columns, and evaluate to them.
fn evaluate(expression: &String, batch: &Batch) -> Result<ArrayData, DataFusionError> {
    match batch.column_index(expression) {
        Some(i) => Ok(batch.columns[i].clone()),
        None => Err(DataFusionError::Plan(format!("no column {expression}"))),
    }
}

fn merge(
    update: Option<&[(&str, &str)]>,
    insert: Option<&[&str]>,
    schema: Arc<Schema>,
) -> IcebergMergeExec<String, String> {
    IcebergMergeExec::new(
        table(),
        "target".to_string(),
        "source".to_string(),
        vec![("t.id".to_string(), "s.id".to_string())],
        update.map(|set| set.iter().map(|(a, b)| (a.to_string(), b.to_string())).collect()),
        insert.map(|values| values.iter().map(|value| value.to_string()).collect()),
        schema,
    )
}

fn node(
    matched: bool,
    not_matched: bool,
    schema: Arc<Schema>,
) -> IcebergMergeExec<String, String> {
    let update: &[(&str, &str)] = &[("value", "source_value")];
    let insert: &[&str] = &["source_id", "source_value"];
    merge(
        if matched { Some(update) } else { None },
        if not_matched { Some(insert) } else { None },
        schema,
    )
}

fn int_column(batch: &Batch, i: usize) -> Vec<Option<i32>> {
    let column = column(batch, i);
    column.as_any().downcast_ref::<Int32Array>().unwrap().iter().collect()
}

fn text_column(batch: &Batch, i: usize) -> Vec<Option<String>> {
    let column = column(batch, i);
    let texts = column.as_any().downcast_ref::<StringArray>().unwrap();
    texts.iter().map(|text| text.map(|text| text.to_string())).collect()
}

fn some_texts(texts: &[&str]) -> Vec<Option<String>> {
    texts.iter().map(|text| Some(text.to_string())).collect()
}

fn data_file(path: &str, record_count: u64) -> DataFile {
    DataFileBuilder::default()
        .content(DataContentType::Data)
        .file_path(path.to_string())
        .file_format(DataFileFormat::Parquet)
        .file_size_in_bytes(512)
        .record_count(record_count)
        .partition_spec_id(0)
        .partition(Struct::empty())
        .build()
        .unwrap()
}

#[test]
fn test_merge_exec_creation() {
    let schema = Arc::new(Schema::new(vec![
        Field::new("id", DataType::Int32, false),
        Field::new("value", DataType::Utf8, true),
    ]));

    let target_scan = Arc::new(EmptyExec::new(schema.clone())) as Arc<dyn ExecutionPlan>;
    let source = Arc::new(EmptyExec::new(schema.clone())) as Arc<dyn ExecutionPlan>;

    let join_on: Vec<(Arc<dyn PhysicalExpr>, Arc<dyn PhysicalExpr>)> = vec![];

    let exec =
        IcebergMergeExec::new(table(), target_scan, source, join_on, None, None, schema.clone());
    assert_eq!(exec.target_scan().schema().fields().len(), 2);
    assert_eq!(exec.source().schema().fields().len(), 2);
    assert_eq!(exec.join_on().len(), 0);
    assert_eq!(exec.plan_properties.schema, schema);
    assert_eq!(exec.plan_properties.partition_count, 1);
    assert_eq!(exec.plan_properties.emission, EmissionType::Final);
    assert_eq!(exec.plan_properties.boundedness, Boundedness::Bounded);
}

#[test]
fn merge_nodes_speak_of_their_clauses() {
    let schema = joined().schema;
    let exec = node(true, false, schema.clone());
    let line = "IcebergMergeExec: matched=true, not_matched=false";
    for format in [DisplayFormat::Default, DisplayFormat::Verbose, DisplayFormat::TreeRender] {
        assert_eq!(exec.fmt_as(format), line);
    }
    assert_eq!(
        node(false, true, schema).fmt_as(DisplayFormat::Default),
        "IcebergMergeExec: matched=false, not_matched=true"
    );
    assert_eq!(exec.name(), "IcebergMergeExec");
    assert_eq!(exec.children(), vec!["target", "source"]);
    assert_eq!(exec.table().identifier().name(), "test_table");
}

#[test]
fn merge_nodes_take_two_children() {
    let schema = joined().schema;
    let exec = node(true, true, schema.clone())
        .with_new_children(vec!["a".to_string(), "b".to_string()])
        .unwrap();
    assert_eq!(exec.target_scan(), "a");
    assert_eq!(exec.source(), "b");
    assert!(exec.matched_update.is_some());
    match node(true, true, schema).with_new_children(vec!["a".to_string()]) {
        Err(ExecError::Plan(message)) => {
            assert_eq!(message, "IcebergMergeExec requires exactly 2 children")
        }
        _ => panic!("one child was taken"),
    }
}

#[test]
fn rows_are_told_apart_by_all_columns_of_each_side() {
    let (matched, not_matched) = classify_rows(&joined(), 2);
    assert_eq!(matched, vec![true, false, false]);
    assert_eq!(not_matched, vec![false, true, false]);
    // A null in the first column of a side does not make the side missing.
    let rows = batch(vec![
        ("id", ints(vec![None, None, None, Some(4)])),
        ("value", strings(vec![Some("a"), None, Some("c"), None])),
        ("source_id", ints(vec![None, None, None, None])),
        ("source_value", strings(vec![Some("x"), Some("y"), None, None])),
    ]);
    let (matched, not_matched) = classify_rows(&rows, 2);
    assert_eq!(matched, vec![true, false, false, false]);
    assert_eq!(not_matched, vec![false, true, false, false]);
    // Nulls behind keys and rows of the null type hold no value either.
    let keys = Int32Array::from(vec![0, 1]);
    let keyed = DictionaryArray::new(keys, strings(vec![Some("a"), None]));
    let rows = batch(vec![
        ("value", Arc::new(keyed)),
        ("nothing", Arc::new(NullArray::new(2))),
        ("source_id", ints(vec![Some(1), Some(2)])),
    ]);
    let (matched, not_matched) = classify_rows(&rows, 2);
    assert_eq!(matched, vec![true, false]);
    assert_eq!(not_matched, vec![false, true]);
}

#[test]
fn merged_rows_come_in_order() {
    let rows = joined();
    let mut run = node(true, true, rows.schema.clone()).start(2);
    run.add(&rows, evaluate).unwrap();
    run.add(&rows, evaluate).unwrap();
    assert_eq!(run.result_batches.len(), 4);
    let merged = run.finish().unwrap();
    assert_eq!(merged.row_count, 4);
    assert_eq!(int_column(&merged, 0), vec![Some(1), Some(2), Some(1), Some(2)]);
    assert_eq!(text_column(&merged, 1), some_texts(&["x", "y", "x", "y"]));
    assert_eq!(text_column(&merged, 3), some_texts(&["x", "y", "x", "y"]));
}

#[test]
fn matched_rows_take_their_assignments() {
    let rows = batch(vec![
        ("id", ints(vec![Some(1), Some(2), None])),
        ("value", strings(vec![Some("a"), Some("b"), None])),
        ("id", ints(vec![Some(7), Some(8), Some(9)])),
        ("text", strings(vec![Some("x"), Some("y"), Some("z")])),
    ]);
    // The last assignment to a column counts, and what it gives may be joined values.
    let set = [("value", "value"), ("id", "id"), ("value", "text")];
    let mut run = merge(Some(&set), None, rows.schema.clone()).start(2);
    run.add(&rows, evaluate).unwrap();
    let merged = run.finish_plainly().unwrap();
    assert_eq!(int_column(&merged, 0), vec![Some(1), Some(2)]);
    assert_eq!(text_column(&merged, 1), some_texts(&["x", "y"]));
    // Columns of the source stay, also under a name that is assigned to.
    assert_eq!(int_column(&merged, 2), vec![Some(7), Some(8)]);
    assert_eq!(text_column(&merged, 3), some_texts(&["x", "y"]));
}

#[test]
fn inserted_rows_take_their_values() {
    let rows = joined();
    let mut run = merge(None, Some(&["source_id"]), rows.schema.clone()).start(2);
    run.add(&rows, evaluate).unwrap();
    let merged = run.finish_plainly().unwrap();
    assert_eq!(int_column(&merged, 0), vec![Some(2)]);
    // A column without a value stays as it was joined.
    assert_eq!(text_column(&merged, 1), vec![None]);
    assert_eq!(int_column(&merged, 2), vec![Some(2)]);
}

#[test]
fn a_failure_leaves_the_merge_as_it_was() {
    let rows = joined();
    let missing = |run: &mut MergeRun<String>| match run.add(&rows, evaluate) {
        Err(ExecError::DataFusion(DataFusionError::Plan(message))) => message,
        _ => panic!("a missing column was evaluated"),
    };
    let set = [("value", "source_value"), ("id", "nowhere")];
    let mut run = merge(Some(&set), Some(&["source_id"]), rows.schema.clone()).start(2);
    assert_eq!(missing(&mut run), "no column nowhere");
    assert!(run.result_batches.is_empty());
    // The rows with both sides are not kept either where an insert fails.
    let set = [("value", "source_value")];
    let insert = ["source_id", "elsewhere"];
    let mut run = merge(Some(&set), Some(&insert), rows.schema.clone()).start(2);
    assert_eq!(missing(&mut run), "no column elsewhere");
    assert!(run.result_batches.is_empty());
    // Where no row is acted on, nothing is evaluated.
    let only_target = rows.select(vec![false, false, true]).unwrap();
    run.add(&only_target, evaluate).unwrap();
    let only_matched = rows.select(vec![true, false, false]).unwrap();
    run.add(&only_matched, evaluate).unwrap();
    assert_eq!(run.result_batches.len(), 1);
}

#[test]
fn actions_have_to_fit_the_target() {
    let rows = joined();
    let refused = |update: Option<&[(&str, &str)]>, insert: Option<&[&str]>| {
        let mut run = merge(update, insert, rows.schema.clone()).start(2);
        let error = run.add(&rows, evaluate).unwrap_err();
        assert!(run.result_batches.is_empty());
        error
    };
    // Columns of the source cannot be assigned to.
    match refused(Some(&[("id", "id"), ("source_id", "id"), ("other", "id")]), None) {
        ExecError::Plan(message) => assert_eq!(message, "Column source_id not found in batch"),
        _ => panic!("a column of the source was assigned to"),
    }
    match refused(Some(&[("value", "source_id")]), None) {
        ExecError::Arrow { context: Some(context), .. } => {
            assert_eq!(context, "Failed to apply MERGE UPDATE assignments")
        }
        _ => panic!("a number was assigned to a text"),
    }
    match refused(None, Some(&["source_value"])) {
        ExecError::Arrow { context: Some(context), .. } => {
            assert_eq!(context, "Failed to apply MERGE INSERT expressions")
        }
        _ => panic!("a text was inserted as a number"),
    }
    match refused(None, Some(&["source_id", "source_value", "source_id"])) {
        ExecError::Plan(message) => {
            assert_eq!(message, "MERGE INSERT has more values than the target has columns")
        }
        _ => panic!("three values were inserted into two columns"),
    }
}

#[test]
fn values_are_put_into_the_columns_of_the_target() {
    let rows = joined();
    let names = vec!["id".to_string(), "id".to_string()];
    let first = ints(vec![Some(5), Some(5), Some(5)]).to_data();
    let last = ints(vec![Some(6), None, Some(8)]).to_data();
    let values = vec![first, last];
    let updated = update_columns(&rows, 2, &names, &values).unwrap();
    assert_eq!(int_column(&updated, 0), vec![Some(6), None, Some(8)]);
    assert_eq!(updated.columns[1..], rows.columns[1..]);
    let filled = insert_columns(&rows, 2, &values[..1].to_vec()).unwrap();
    assert_eq!(int_column(&filled, 0), vec![Some(5), Some(5), Some(5)]);
    assert_eq!(filled.columns[1..], rows.columns[1..]);
    // Two numbers do not fit a number and a text.
    assert!(matches!(
        insert_columns(&rows, 2, &values),
        Err(ExecError::Arrow { context: Some(_), .. })
    ));
    let short = vec![ints(vec![Some(1)]).to_data()];
    assert!(matches!(
        update_columns(&rows, 2, &names[..1].to_vec(), &short),
        Err(ExecError::Arrow { context: Some(_), .. })
    ));
    assert!(matches!(
        update_columns(&rows, 0, &names, &values),
        Err(ExecError::Plan(_))
    ));
}

#[test]
fn only_the_wanted_rows_are_kept() {
    let rows = joined();
    for (matched, not_matched, expected) in
        [(true, false, vec![Some(1)]), (false, true, vec![Some(2)]), (false, false, vec![])]
    {
        let mut run = node(matched, not_matched, rows.schema.clone()).start(2);
        run.add(&rows, evaluate).unwrap();
        assert_eq!(run.result_batches.len(), expected.len());
        let merged = run.finish_plainly().unwrap();
        assert_eq!(merged.row_count, expected.len());
        assert_eq!(merged.schema, rows.schema);
        assert_eq!(int_column(&merged, 2), expected);
    }
}

#[test]
fn merged_rows_have_to_fit_the_schema() {
    let rows = joined();
    let schema = Arc::new(Schema::new(vec![Field::new("id", DataType::Int32, false)]));
    let mut run = merge(None, Some(&[]), schema).start(2);
    run.add(&rows, evaluate).unwrap();
    match run.finish_plainly() {
        Err(ExecError::Arrow { context: Some(context), .. }) => {
            assert_eq!(context, "Failed to concatenate merge result batches")
        }
        _ => panic!("a null was taken"),
    }
    // Fewer fields than columns: the first columns are taken.
    let schema = Arc::new(Schema::new(vec![Field::new("id", DataType::Int32, true)]));
    let mut run = node(true, true, schema).start(2);
    run.add(&rows, evaluate).unwrap();
    let merged = run.finish_plainly().unwrap();
    assert_eq!(merged.columns.len(), 1);
    assert_eq!(int_column(&merged, 0), vec![Some(1), Some(2)]);
    // There are times in nanoseconds of 64 bits only.
    let times = DataType::Time32(TimeUnit::Nanosecond);
    let schema = Arc::new(Schema::new(vec![Field::new("t", times, true)]));
    match node(true, true, schema).start(2).finish_plainly() {
        Err(ExecError::Internal(message)) => {
            assert_eq!(message, "Arrow has no array for a field of the merged rows")
        }
        _ => panic!("a column of no array was made"),
    }
}

fn keyed() -> Batch {
    let keys = Int32Array::from(vec![Some(0), None]);
    let column = DictionaryArray::new(keys, strings(vec![Some("a")]));
    batch(vec![("b", Arc::new(column)), ("s", ints(vec![Some(1), Some(2)]))])
}

#[test]
fn plain_rows_are_taken_in_plainly() {
    let rows = joined();
    assert!(rows.is_plainly_copyable());
    let mut run = node(true, true, rows.schema.clone()).start(2);
    run.add_plainly(&rows, evaluate).unwrap();
    assert_eq!(run.result_batches.len(), 2);
    assert_eq!(run.finish_plainly().unwrap().row_count, 2);

    let rows = keyed();
    let mut run = merge(Some(&[]), Some(&[]), rows.schema.clone()).start(1);
    match run.add_plainly(&rows, evaluate) {
        Err(ExecError::Overflow(message)) => {
            assert_eq!(message, "The merged rows may not fit into one batch")
        }
        _ => panic!("a null key was taken"),
    }
    assert!(run.result_batches.is_empty());
}

#[test]
fn batches_are_made_of_columns_that_fit() {
    let columns = || vec![ints(vec![Some(1), None]).to_data()];
    let schema =
        |nullable: bool| Arc::new(Schema::new(vec![Field::new("a", DataType::Int32, nullable)]));
    let made = Batch::new(schema(true), columns(), 2).unwrap();
    assert_eq!(made.columns, columns());
    assert_eq!(made.row_count, 2);
    let selected = made.select(vec![false, true]).unwrap();
    assert_eq!(selected.columns[0], ints(vec![None]).to_data());
    assert!(matches!(
        Batch::new(schema(false), columns(), 2),
        Err(ExecError::Arrow { context: None, .. })
    ));
    assert!(Batch::new(schema(true), columns(), 3).is_err());
    assert!(Batch::new(schema(true), vec![], 2).is_err());
    assert_eq!(made.column_names(), vec!["a"]);
    assert_eq!(made.column_index("a"), Some(0));
    assert_eq!(made.column_index("b"), None);
}

#[test]
fn unclear_sizes_are_refused_by_the_plain_finish_only() {
    let rows = keyed();
    let run = || {
        let mut run = merge(Some(&[]), Some(&[]), rows.schema.clone()).start(1);
        run.add(&rows, evaluate).unwrap();
        run
    };
    match run().finish_plainly() {
        Err(ExecError::Overflow(message)) => {
            assert_eq!(message, "The merged rows may not fit into one batch")
        }
        _ => panic!("a null key was taken"),
    }
    assert_eq!(run().finish().unwrap().row_count, 2);

    let schema = Arc::new(Schema::new(vec![
        rows.schema.field(0).clone(),
        Field::new("s", DataType::Int32, true),
        Field::new("t", DataType::Int32, true),
    ]));
    let wide = MergeRun { schema, ..run() };
    assert!(!wide.has_enough_columns());
    assert!(matches!(wide.finish_plainly(), Err(ExecError::Overflow(_))));
    assert!(run().has_enough_columns());
}

#[test]
fn test_merge_write_exec_creation() {
    let schema = Arc::new(Schema::new(vec![
        Field::new("id", DataType::Int32, false),
        Field::new("value", DataType::Utf8, true),
    ]));

    let input = Arc::new(EmptyExec::new(schema.clone())) as Arc<dyn ExecutionPlan>;

    assert_eq!(input.schema().fields().len(), 2);

    let exec =
        IcebergMergeWriteExec::new(table(), PlanInput { plan: input, partition_count: 4 }, schema);
    assert_eq!(exec.input.plan.schema().fields().len(), 2);
    assert_eq!(exec.plan_properties.schema.fields().len(), 2);
    assert_eq!(exec.plan_properties.partition_count, 4);
    assert_eq!(exec.result_schema.fields().len(), 2);
    assert_eq!(exec.benefits_from_input_partitioning(), vec![false]);
    assert_eq!(exec.maintains_input_order(), vec![true]);
    assert_eq!(exec.children().len(), 1);
    assert_eq!(exec.name(), "IcebergMergeWriteExec");
}

#[test]
fn test_result_schema() {
    let result_schema = IcebergMergeWriteExec::<String>::make_result_schema();
    assert_eq!(result_schema.fields().len(), 2);
    assert_eq!(result_schema.field(0).name(), DATA_FILES_COL_NAME);
    assert_eq!(result_schema.field(1).name(), DELETED_FILES_COL_NAME);
    assert_eq!(result_schema.field(0).data_type(), &DataType::Utf8);
    assert!(result_schema.field(0).is_nullable());
    assert_eq!(result_schema.field(1).data_type(), &DataType::Utf8);
    assert!(result_schema.field(1).is_nullable());
    assert_eq!(DATA_FILES_COL_NAME, "data_files");
    assert_eq!(DELETED_FILES_COL_NAME, "deleted_files");
}

#[test]
fn merge_write_nodes_are_shown_with_their_table() {
    let input = PlanInput { plan: "scan".to_string(), partition_count: 1 };
    let exec = IcebergMergeWriteExec::new(table(), input, joined().schema);
    let line = "IcebergMergeWriteExec: table=outer.inner.test_table";
    assert_eq!(exec.fmt_as(DisplayFormat::Default), line);
    assert_eq!(exec.fmt_as(DisplayFormat::TreeRender), line);
    assert_eq!(
        exec.fmt_as(DisplayFormat::Verbose),
        format!("{line}, result_schema={:?}", exec.result_schema)
    );
    let children = |n: usize| {
        (0..n).map(|i| PlanInput { plan: format!("plan {i}"), partition_count: i + 2 }).collect()
    };
    match exec.with_new_children(children(12)) {
        Err(ExecError::Internal(message)) => assert_eq!(
            message,
            "IcebergMergeWriteExec expects exactly one child, but provided 12"
        ),
        _ => panic!("twelve children were taken"),
    }
    let input = PlanInput { plan: "scan".to_string(), partition_count: 1 };
    let exec = IcebergMergeWriteExec::new(table(), input, joined().schema);
    let exec = exec.with_new_children(children(1)).unwrap();
    assert_eq!(exec.input.plan, "plan 0");
    assert_eq!(exec.plan_properties.partition_count, 2);
    assert_eq!(exec.plan_properties.schema, joined().schema);
}

#[test]
fn source_files_are_noted_once_and_taken_out() {
    let mut run = MergeWriteRun::start();
    let rows = batch(vec![
        ("id", ints(vec![Some(1), Some(2), Some(3), Some(4)])),
        ("_file", strings(vec![Some("b"), None, Some("a"), Some("b")])),
    ]);
    let stripped = run.accept(rows).unwrap();
    assert_eq!(run.deleted_files, vec!["b", "a"]);
    assert_eq!(stripped.columns.len(), 1);
    assert_eq!(stripped.row_count, 4);
    assert_eq!(stripped.schema.field(0).name(), "id");
    assert_eq!(stripped.columns[0], ints(vec![Some(1), Some(2), Some(3), Some(4)]).to_data());
    let rows = batch(vec![
        ("_file", strings(vec![Some("c"), Some("a")])),
        ("id", ints(vec![Some(1), Some(2)])),
        ("_file", strings(vec![Some("x"), Some("y")])),
    ]);
    let stripped = run.accept(rows).unwrap();
    assert_eq!(run.deleted_files, vec!["b", "a", "c"]);
    assert_eq!(stripped.columns.len(), 1);
}

#[test]
fn batches_without_source_files_stay() {
    let mut run = MergeWriteRun::start();
    let metadata = HashMap::from([("key".to_string(), "value".to_string())]);
    let rows = batch(vec![("id", ints(vec![Some(1)]))]);
    let schema = Arc::new(rows.schema.as_ref().clone().with_metadata(metadata.clone()));
    let written = run.accept(Batch { schema, ..rows }).unwrap();
    assert_eq!(written.schema.metadata(), &metadata);
    assert!(run.deleted_files.is_empty());
}

#[test]
fn source_files_are_read_however_they_are_stored() {
    let wide: ArrayRef = Arc::new(LargeStringArray::from(vec![Some("a"), None, Some("b")]));
    let viewed: ArrayRef = Arc::new(StringViewArray::from(vec![Some("c"), None, Some("d")]));
    let keys = Int32Array::from(vec![Some(1), None, Some(0)]);
    let keyed: ArrayRef =
        Arc::new(DictionaryArray::new(keys, strings(vec![Some("f"), Some("e")])));
    let ends = Int32Array::from(vec![1, 3, 5]);
    let runs = RunArray::<Int32Type>::try_new(&ends, &strings(vec![Some("x"), Some("g"), None]));
    let runs: ArrayRef = Arc::new(runs.unwrap());
    let mut run = MergeWriteRun::start();
    for files in [wide, viewed, keyed, runs.slice(1, 3)] {
        let rows = batch(vec![("_file", files), ("id", ints(vec![Some(1), Some(2), Some(3)]))]);
        assert_eq!(run.accept(rows).unwrap().columns.len(), 1);
    }
    assert_eq!(run.deleted_files, vec!["a", "b", "c", "d", "e", "f", "g"]);
}

#[test]
fn a_column_that_is_no_text_names_no_files() {
    let mut run = MergeWriteRun { deleted_files: vec!["a".to_string()] };
    let rows = batch(vec![
        ("_file", ints(vec![Some(1), Some(2)])),
        ("id", ints(vec![Some(3), None])),
        ("_file", strings(vec![Some("b"), Some("c")])),
    ]);
    let stripped = run.accept(rows).unwrap();
    assert_eq!(stripped.columns, vec![ints(vec![Some(3), None]).to_data()]);
    assert_eq!(stripped.schema.field(0).name(), "id");
    assert_eq!(run.deleted_files, vec!["a"]);
}

#[test]
fn some_column_has_to_be_left() {
    match strip_file_column(batch(vec![("_file", strings(vec![Some("a")]))])) {
        Err(ExecError::Arrow { context: Some(context), .. }) => {
            assert_eq!(context, "Failed to create batch without _file column")
        }
        _ => panic!("a batch without columns was made"),
    }
}

#[test]
fn a_merge_reports_its_files() {
    let table = table();
    let info = TableInfo::of(&table);
    let run = MergeWriteRun { deleted_files: vec!["old.parquet".to_string()] };
    let report = run.finish(&vec![data_file("new.parquet", 7)], &info).unwrap();
    assert_eq!(report.row_count, 1);
    let written = column(&report, 0);
    let written = written.as_any().downcast_ref::<StringArray>().unwrap();
    assert!(written.value(0).contains("new.parquet"));
    let replaced = column(&report, 1);
    let replaced = replaced.as_any().downcast_ref::<StringArray>().unwrap();
    assert_eq!(replaced.value(0), "old.parquet");

    // The lists need not be of one length.
    let report = MergeWriteRun::start().finish(&vec![data_file("new.parquet", 7)], &info).unwrap();
    assert_eq!(report.row_count, 1);
    assert_eq!(read_column(&report, DATA_FILES_COL_NAME).unwrap().len(), 1);
    assert!(read_column(&report, DELETED_FILES_COL_NAME).unwrap().is_empty());
    let run = MergeWriteRun { deleted_files: vec!["a".to_string(), "b".to_string()] };
    let report = run.finish(&vec![], &info).unwrap();
    assert_eq!(report.row_count, 2);
    assert!(read_column(&report, DATA_FILES_COL_NAME).unwrap().is_empty());
    assert_eq!(read_column(&report, DELETED_FILES_COL_NAME).unwrap(), vec!["a", "b"]);
    let made = IcebergMergeWriteExec::<String>::make_result_batch(
        vec!["a".to_string(), "b".to_string()],
        vec!["c".to_string(), "d".to_string()],
    )
    .unwrap();
    assert_eq!(made.row_count, 2);
}

#[test]
fn merged_rows_are_written_as_parquet_only() {
    let exec = |properties: &[(&str, &str)]| {
        let input = PlanInput { plan: "scan".to_string(), partition_count: 1 };
        IcebergMergeWriteExec::new(table_with(properties), input, joined().schema)
    };
    assert_eq!(exec(&[]).prepare().unwrap().partition_spec_id, 0);
    assert!(exec(&[("write.format.default", "PARQUET")]).prepare().is_ok());
    match exec(&[("write.format.default", "Avro")]).prepare() {
        Err(ExecError::FeatureUnsupported(message)) => {
            assert_eq!(message, "File format avro is not supported for MERGE yet!")
        }
        _ => panic!("avro was taken"),
    }
    let unknown = exec(&[("write.format.default", "csv")]).prepare();
    assert!(matches!(unknown, Err(ExecError::Iceberg(_))));
    let unreadable = exec(&[("write.target-file-size-bytes", "large")]).prepare();
    assert!(matches!(unreadable, Err(ExecError::Iceberg(_))));
    for (name, shown) in [("ORC", "orc"), ("puffin", "puffin")] {
        match check_write_format(name, "MERGE") {
            Err(ExecError::FeatureUnsupported(message)) => {
                assert_eq!(message, format!("File format {shown} is not supported for MERGE yet!"))
            }
            _ => panic!("{name} was taken"),
        }
    }
}
