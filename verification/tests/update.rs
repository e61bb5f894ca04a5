//! UPDATE: changing the rows that match, writing them, and committing the files.

use std::collections::HashMap;
use std::sync::Arc;

use datafusion::arrow::array::{
    Array, ArrayData, ArrayRef, BinaryArray, BooleanArray, DictionaryArray, Int8Array, Int32Array,
    LargeStringArray, ListArray, RecordBatch, RecordBatchOptions, RunArray, StringArray,
    StringViewArray, StructArray, UInt64Array, UnionArray, make_array,
};
use datafusion::arrow::datatypes::{DataType, Field, Int32Type, Schema, TimeUnit, UnionFields};
use datafusion::common::ScalarValue;
use datafusion::error::DataFusionError;
use datafusion::logical_expr::Operator;
use datafusion::physical_expr::expressions::{BinaryExpr, Column, Literal};
use datafusion::physical_plan::empty::EmptyExec;
use datafusion::physical_plan::{ExecutionPlan, PhysicalExpr};
use iceberg::io::FileIO;
use iceberg::spec::{
    DataContentType, DataFile, DataFileBuilder, DataFileFormat, Datum, Literal as PartitionValue,
    NestedField, PrimitiveType, Struct, StructType, TableMetadataBuilder, Type,
    serialize_data_file_to_json,
};
use iceberg::table::Table;
use iceberg::{TableCreation, TableIdent};
use iceberg_row_updates::assignments::{
    apply_values, apply_values_plainly, has_matches, last_place, selection_mask,
};
use iceberg_row_updates::batch::Batch;
use iceberg_row_updates::capacity::can_append;
use iceberg_row_updates::columns::{
    column_has_array, column_texts, columns_have_arrays, same_rows, schema_has_arrays,
    stored_texts,
};
use iceberg_row_updates::error::ExecError;
use iceberg_row_updates::files::{
    FileFormat, TableInfo, deserialize_data_files, serialize_data_files,
};
use iceberg_row_updates::node::{DisplayFormat, InputDistribution, PlanInput};
use iceberg_row_updates::text::{decimal_text, join, same_text, utf8_bytes_within};
use iceberg_row_updates::types::{
    is_text_type, type_has_array, type_holds_runs, type_is_comparable,
};
use iceberg_row_updates::update_commit::{CommitAction, CommitRun, IcebergUpdateCommitExec};
use iceberg_row_updates::update_write::{
    FilterTree, IcebergUpdateWriteExec, ScannedFile, UpdateMetrics, UpdateWriteRun,
    combine_filters, deleted_data_files,
};
use iceberg_row_updates::write_result::{
    DATA_FILES_COL_NAME, DELETED_FILES_COL_NAME, read_column, report,
};

type Expression = Arc<dyn PhysicalExpr>;
type UpdateNode = IcebergUpdateWriteExec<String, String, Expression>;

fn table_with(properties: &[(&str, &str)]) -> Table {
    let schema = iceberg::spec::Schema::builder()
        .with_schema_id(0)
        .with_fields(vec![
            NestedField::required(1, "id", Type::Primitive(PrimitiveType::Int)).into(),
            NestedField::required(2, "value", Type::Primitive(PrimitiveType::Int)).into(),
        ])
        .build()
        .unwrap();
    let properties: HashMap<String, String> =
        properties.iter().map(|(key, value)| (key.to_string(), value.to_string())).collect();
    let creation = TableCreation::builder()
        .name("test_table".to_string())
        .location("memory://root/test_table".to_string())
        .schema(schema)
        .properties(properties)
        .build();
    let metadata = TableMetadataBuilder::from_table_creation(creation).unwrap().build().unwrap();
    Table::builder()
        .file_io(FileIO::new_with_memory())
        .metadata(metadata.metadata)
        .identifier(TableIdent::from_strs(["test_namespace", "test_table"]).unwrap())
        .build()
        .unwrap()
}

fn table() -> Table {
    table_with(&[])
}

fn info() -> TableInfo {
    TableInfo::of(&table())
}

fn batch_of(batch: RecordBatch) -> Batch {
    let (schema, columns, row_count) = batch.into_parts();
    Batch { schema, columns: columns.iter().map(|column| column.to_data()).collect(), row_count }
}

fn record_batch(batch: &Batch) -> RecordBatch {
    let columns = batch.columns.iter().map(|column| make_array(column.clone())).collect();
    let options = RecordBatchOptions::new().with_row_count(Some(batch.row_count));
    RecordBatch::try_new_with_options(batch.schema.clone(), columns, &options).unwrap()
}

fn evaluate(expression: &Expression, batch: &Batch) -> Result<ArrayData, DataFusionError> {
    let batch = record_batch(batch);
    let value = expression.evaluate(&batch)?.into_array(batch.num_rows())?;
    Ok(value.to_data())
}

fn ints(values: Vec<i32>) -> ArrayRef {
    Arc::new(Int32Array::from(values))
}

fn number(value: i32) -> Expression {
    Arc::new(Literal::new(ScalarValue::Int32(Some(value))))
}

fn equals(name: &str, index: usize, value: i32) -> Expression {
    Arc::new(BinaryExpr::new(
        Arc::new(Column::new(name, index)),
        Operator::Eq,
        number(value),
    ))
}

fn rows() -> Batch {
    let schema = Arc::new(Schema::new(vec![
        Field::new("id", DataType::Int32, false),
        Field::new("value", DataType::Int32, false),
    ]));
    let columns = vec![ints(vec![1, 2, 3]), ints(vec![100, 200, 300])];
    batch_of(RecordBatch::try_new(schema, columns).unwrap())
}

fn int_column(batch: &Batch, i: usize) -> Vec<Option<i32>> {
    let column = make_array(batch.columns[i].clone());
    column.as_any().downcast_ref::<Int32Array>().unwrap().iter().collect()
}

fn node(assignments: Vec<(&str, Expression)>) -> UpdateNode {
    let assignments =
        assignments.into_iter().map(|(name, value)| (name.to_string(), value)).collect();
    let input = PlanInput { plan: "scan".to_string(), partition_count: 2 };
    let schema = rows().schema;
    IcebergUpdateWriteExec::new(table(), input, vec!["id = 1".to_string()], assignments, schema)
}

fn data_file(path: &str, size: u64, record_count: u64) -> DataFile {
    DataFileBuilder::default()
        .content(DataContentType::Data)
        .file_path(path.to_string())
        .file_format(DataFileFormat::Parquet)
        .file_size_in_bytes(size)
        .record_count(record_count)
        .partition_spec_id(0)
        .partition(Struct::empty())
        .build()
        .unwrap()
}

fn text_batch(columns: Vec<(&str, Vec<Option<&str>>)>) -> Batch {
    let named = columns.into_iter().map(|(name, values)| {
        (name.to_string(), Arc::new(StringArray::from(values)) as ArrayRef, true)
    });
    batch_of(RecordBatch::try_from_iter_with_nullable(named).unwrap())
}

#[test]
fn test_update_write_exec_basic() {
    let table = table();
    let arrow_schema = rows().schema;
    let input_plan = Arc::new(EmptyExec::new(arrow_schema.clone())) as Arc<dyn ExecutionPlan>;

    let value_col_idx = 1;
    let assignments = vec![(
        "value".to_string(),
        Arc::new(Column::new("value", value_col_idx)) as Arc<dyn PhysicalExpr>,
    )];

    let filters: Vec<String> = vec![];
    let input = PlanInput { plan: input_plan, partition_count: 1 };
    let update_exec =
        IcebergUpdateWriteExec::new(table, input, filters, assignments, arrow_schema);

    let schema = update_exec.plan_properties.schema.clone();
    assert_eq!(schema.fields().len(), 2);
    assert_eq!(schema.field(0).name(), DATA_FILES_COL_NAME);
    assert_eq!(schema.field(1).name(), DELETED_FILES_COL_NAME);

    // SET value = value leaves the rows as they are, which is no change.
    let (updated, changed) =
        update_exec.apply_assignments(rows(), None, evaluate).unwrap();
    assert!(!changed);
    assert_eq!(int_column(&updated, 1), vec![Some(100), Some(200), Some(300)]);
}

#[test]
fn selected_rows_get_new_values() {
    let exec = node(vec![("value", number(999))]);
    let predicate = equals("id", 0, 1);
    let (updated, changed) = exec.apply_assignments(rows(), Some(&predicate), evaluate).unwrap();
    assert!(changed);
    assert_eq!(updated.row_count, 3);
    assert_eq!(int_column(&updated, 0), vec![Some(1), Some(2), Some(3)]);
    assert_eq!(int_column(&updated, 1), vec![Some(999), Some(200), Some(300)]);
    let (updated, changed) =
        exec.apply_assignments_plainly(rows(), Some(&predicate), evaluate).unwrap();
    assert!(changed);
    assert_eq!(int_column(&updated, 1), vec![Some(999), Some(200), Some(300)]);
}

#[test]
fn only_other_values_are_a_change() {
    let exec = node(vec![("value", number(200))]);
    let (_, changed) = exec.apply_assignments(rows(), Some(&equals("id", 0, 2)), evaluate).unwrap();
    assert!(!changed);
    let (once, changed) = exec.apply_assignments(rows(), None, evaluate).unwrap();
    assert!(changed);
    // The same update once more changes nothing.
    let columns = once.columns.clone();
    let (twice, changed) = exec.apply_assignments(once, None, evaluate).unwrap();
    assert!(!changed);
    assert_eq!(twice.columns, columns);
    // A null is another value.
    let schema = Arc::new(Schema::new(vec![Field::new("value", DataType::Int32, true)]));
    let batch = batch_of(RecordBatch::try_new(schema, vec![ints(vec![1, 2])]).unwrap());
    let null: Expression = Arc::new(Literal::new(ScalarValue::Int32(None)));
    let exec = node(vec![("value", null)]);
    let (nulls, changed) = exec.apply_assignments(batch, None, evaluate).unwrap();
    assert!(changed);
    let (_, changed) = exec.apply_assignments(nulls, None, evaluate).unwrap();
    assert!(!changed);
}

fn runs(ends: Vec<i32>, values: Vec<Option<i32>>) -> RunArray<Int32Type> {
    RunArray::try_new(&Int32Array::from(ends), &Int32Array::from(values)).unwrap()
}

#[test]
fn runs_are_compared_row_by_row() {
    let same = |a: &dyn Array, b: &dyn Array| same_rows(&a.to_data(), &b.to_data());
    let short = runs(vec![1, 2, 4], vec![Some(1), Some(1), None]);
    let long = runs(vec![2, 4], vec![Some(1), None]);
    assert!(same(&short, &long));
    assert!(!same(&short, &runs(vec![2, 4], vec![Some(1), Some(2)])));
    assert!(!same(&short, &runs(vec![2, 3], vec![Some(1), None])));
    assert!(same(&long.slice(1, 2), &runs(vec![1, 2], vec![Some(1), None])));
    assert!(!same(&long.slice(1, 2), &runs(vec![1, 2], vec![None, Some(1)])));
    assert!(same(&ints(vec![1, 2, 3]).slice(1, 2), &ints(vec![2, 3])));
    assert!(!same(&ints(vec![1, 2]), &ints(vec![1, 3])));
    assert!(same(&keyed(&["a", "b"], &[0, 1, 0]), &keyed(&["b", "a"], &[1, 0, 1])));
    assert!(!same(&keyed(&["a", "b"], &[0, 1]), &keyed(&["a", "b"], &[1, 1])));

    let column: ArrayRef = Arc::new(runs(vec![1, 2], vec![Some(1), Some(2)]));
    let batch = batch_of(RecordBatch::try_from_iter(vec![("r", column)]).unwrap());
    let itself: Expression = Arc::new(Column::new("r", 0));
    let (_, changed) =
        node(vec![("r", itself)]).apply_assignments(batch, None, evaluate).unwrap();
    assert!(!changed);
}

#[test]
fn without_a_predicate_every_row_is_selected() {
    let exec = node(vec![("value", number(7)), ("id", number(0)), ("value", number(8))]);
    let (updated, changed) = exec.apply_assignments(rows(), None, evaluate).unwrap();
    assert!(changed);
    assert_eq!(int_column(&updated, 0), vec![Some(0), Some(0), Some(0)]);
    // The last assignment to a column counts.
    assert_eq!(int_column(&updated, 1), vec![Some(8), Some(8), Some(8)]);
}

#[test]
fn without_a_selected_row_nothing_is_evaluated() {
    // The assignment would fail.
    let exec = node(vec![("missing", number(1))]);
    let predicate = equals("id", 0, 4);
    let (updated, changed) = exec.apply_assignments(rows(), Some(&predicate), evaluate).unwrap();
    assert!(!changed);
    assert_eq!(updated.columns, rows().columns);
    // An empty batch has no selected row.
    let none = node(vec![("missing", number(1))]);
    let empty = batch_of(RecordBatch::new_empty(rows().schema));
    let (updated, changed) = none.apply_assignments(empty, None, evaluate).unwrap();
    assert!(!changed);
    assert_eq!(updated.row_count, 0);
}

#[test]
fn refused_assignments_are_told() {
    match node(vec![("missing", number(1))]).apply_assignments(rows(), None, evaluate) {
        Err(ExecError::Plan(message)) => {
            assert_eq!(message, "Column missing not found in batch")
        }
        _ => panic!("a missing column was assigned to"),
    }
    let text: Expression = Arc::new(Literal::new(ScalarValue::from("text")));
    match node(vec![("value", text)]).apply_assignments(rows(), None, evaluate) {
        Err(ExecError::Arrow { context: None, .. }) => {}
        _ => panic!("a text was assigned to a number"),
    }
    let null: Expression = Arc::new(Literal::new(ScalarValue::Int32(None)));
    match node(vec![("value", null)]).apply_assignments(rows(), None, evaluate) {
        Err(ExecError::Arrow { context: Some(context), .. }) => {
            assert_eq!(context, "Failed to apply UPDATE assignments")
        }
        _ => panic!("a null was assigned to a column without nulls"),
    }
    let absent: Expression = Arc::new(Column::new("absent", 9));
    let exec = node(vec![("value", absent.clone())]);
    assert!(matches!(
        exec.apply_assignments(rows(), None, evaluate),
        Err(ExecError::DataFusion(_))
    ));
    assert!(matches!(
        exec.apply_assignments(rows(), Some(&absent), evaluate),
        Err(ExecError::DataFusion(_))
    ));
    match exec.apply_assignments(rows(), Some(&number(1)), evaluate) {
        Err(ExecError::Internal(message)) => {
            assert_eq!(message, "WHERE predicate did not evaluate to boolean")
        }
        _ => panic!("a number was taken as a predicate"),
    }
}

#[test]
fn the_first_refusal_ends_an_update() {
    let absent: Expression = Arc::new(Column::new("absent", 9));
    let exec = node(vec![("missing", number(1)), ("value", absent.clone())]);
    assert!(matches!(exec.apply_assignments(rows(), None, evaluate), Err(ExecError::Plan(_))));
    let exec = node(vec![("missing", absent)]);
    assert!(matches!(
        exec.apply_assignments(rows(), None, evaluate),
        Err(ExecError::DataFusion(_))
    ));
}

#[test]
fn rows_of_which_the_mask_says_nothing_stay() {
    let mask = vec![Some(true), None, Some(false)];
    let names = vec!["value".to_string()];
    let values = vec![ints(vec![7, 8, 9]).to_data()];
    let updated = apply_values(&rows(), &mask, &names, &values).unwrap();
    assert_eq!(int_column(&updated, 1), vec![Some(7), Some(200), Some(300)]);
    // A mask of another length is refused.
    let short = vec![Some(true)];
    assert!(matches!(
        apply_values(&rows(), &short, &names, &values),
        Err(ExecError::Arrow { context: None, .. })
    ));
}

#[test]
fn columns_that_share_a_name_keep_their_own_values() {
    let schema = Arc::new(Schema::new(vec![
        Field::new("v", DataType::Int32, true),
        Field::new("v", DataType::Int32, true),
        Field::new("w", DataType::Int32, true),
    ]));
    let columns = vec![ints(vec![1, 2]), ints(vec![3, 4]), ints(vec![5, 6])];
    let shared = batch_of(RecordBatch::try_new(schema, columns).unwrap());
    let mask = vec![Some(true), Some(false)];
    let values = vec![ints(vec![9, 9]).to_data()];
    let updated = apply_values(&shared, &mask, &vec!["v".to_string()], &values).unwrap();
    assert_eq!(int_column(&updated, 0), vec![Some(9), Some(2)]);
    assert_eq!(int_column(&updated, 1), vec![Some(9), Some(4)]);
    assert_eq!(int_column(&updated, 2), vec![Some(5), Some(6)]);
    let updated = apply_values(&shared, &mask, &vec!["w".to_string()], &values).unwrap();
    assert_eq!(int_column(&updated, 0), vec![Some(1), Some(2)]);
    assert_eq!(int_column(&updated, 1), vec![Some(3), Some(4)]);
    assert_eq!(int_column(&updated, 2), vec![Some(9), Some(6)]);
}

#[test]
fn the_same_update_twice_changes_nothing_more() {
    let schema = Arc::new(Schema::new(vec![
        Field::new("v", DataType::Int32, true),
        Field::new("v", DataType::Int32, true),
        Field::new("w", DataType::Int32, true),
    ]));
    let columns = vec![ints(vec![1, 2]), ints(vec![2, 2]), ints(vec![0, 0])];
    let shared = batch_of(RecordBatch::try_new(schema, columns).unwrap());
    let exec = node(vec![("w", number(9))]);
    let predicate = equals("v", 0, 2);
    let (once, changed) = exec.apply_assignments(shared, Some(&predicate), evaluate).unwrap();
    assert!(changed);
    assert_eq!(int_column(&once, 0), vec![Some(1), Some(2)]);
    assert_eq!(int_column(&once, 2), vec![Some(0), Some(9)]);
    let columns = once.columns.clone();
    let (twice, changed) = exec.apply_assignments(once, Some(&predicate), evaluate).unwrap();
    assert!(!changed);
    assert_eq!(twice.columns, columns);
}

#[test]
fn columns_that_share_a_name_have_to_share_its_type() {
    let schema = Arc::new(Schema::new(vec![
        Field::new("v", DataType::Utf8, true),
        Field::new("v", DataType::Int32, true),
    ]));
    let text: ArrayRef = Arc::new(StringArray::from(vec!["a", "b"]));
    let shared = batch_of(RecordBatch::try_new(schema, vec![text, ints(vec![3, 4])]).unwrap());
    let mask = vec![Some(true), Some(false)];
    let names = vec!["v".to_string()];
    let values = vec![ints(vec![9, 9]).to_data()];
    for result in [
        apply_values(&shared, &mask, &names, &values),
        apply_values_plainly(&shared, &mask, &names, &values),
    ] {
        match result {
            Err(ExecError::Arrow { context: Some(context), .. }) => {
                assert_eq!(context, "Failed to apply UPDATE assignments")
            }
            _ => panic!("numbers were put under a field of text"),
        }
    }
    // The values are of the type of the first column only.
    let values = vec![StringArray::from(vec!["c", "d"]).to_data()];
    assert!(matches!(
        apply_values(&shared, &mask, &names, &values),
        Err(ExecError::Arrow { context: None, .. })
    ));
}

#[test]
fn rows_of_unions_and_keys_are_compared() {
    let fields = UnionFields::new(
        vec![0, 1],
        vec![Field::new("n", DataType::Int32, true), Field::new("t", DataType::Utf8, true)],
    );
    let union = |kinds: Vec<i8>, numbers: Vec<Option<i32>>, texts: Vec<Option<&str>>| {
        let members: Vec<ArrayRef> =
            vec![Arc::new(Int32Array::from(numbers)), Arc::new(StringArray::from(texts))];
        UnionArray::try_new(fields.clone(), kinds.into(), None, members).unwrap().to_data()
    };
    let one = union(vec![0, 1], vec![Some(1), None], vec![None, Some("a")]);
    assert!(type_is_comparable(one.data_type()));
    assert!(same_rows(&one, &union(vec![0, 1], vec![Some(1), None], vec![None, Some("a")])));
    assert!(!same_rows(&one, &union(vec![0, 1], vec![Some(2), None], vec![None, Some("a")])));
    let column: ArrayRef = make_array(one.clone());
    let batch = batch_of(RecordBatch::try_from_iter(vec![("u", column)]).unwrap());
    let itself: Expression = Arc::new(Column::new("u", 0));
    let (updated, changed) =
        node(vec![("u", itself)]).apply_assignments(batch, None, evaluate).unwrap();
    assert!(!changed);
    assert_eq!(updated.columns[0], one);
    // Members of a union are told apart also where they are null.
    let nulls = union(vec![0, 0], vec![None, None], vec![None, None]);
    assert!(!same_rows(&nulls, &union(vec![0, 1], vec![None, None], vec![None, None])));
    // Keys of values that have parts.
    let keyed = |keys: Vec<i32>, numbers: Vec<i32>| {
        let field = Arc::new(Field::new("n", DataType::Int32, true));
        let values = StructArray::from(vec![(field, ints(numbers))]);
        DictionaryArray::new(Int32Array::from(keys), Arc::new(values)).to_data()
    };
    assert!(same_rows(&keyed(vec![0, 1], vec![5, 6]), &keyed(vec![1, 0], vec![6, 5])));
    assert!(!same_rows(&keyed(vec![0, 1], vec![5, 6]), &keyed(vec![0, 0], vec![5, 6])));
}

fn keyed(values: &[&str], keys: &[i32]) -> ArrayRef {
    let keys = Int32Array::from(keys.to_vec());
    Arc::new(DictionaryArray::new(keys, Arc::new(StringArray::from(values.to_vec()))))
}

#[test]
fn unclear_sizes_are_refused_by_the_plain_update_only() {
    let column = keyed(&["a", "b"], &[0, 1]);
    let batch = batch_of(RecordBatch::try_from_iter(vec![("b", column)]).unwrap());
    let keys = Int32Array::from(vec![Some(0), None]);
    let new = DictionaryArray::new(keys, Arc::new(StringArray::from(vec!["c"])));
    let names = vec!["b".to_string()];
    let values = vec![new.to_data()];
    let mask = vec![Some(true), Some(false)];
    match apply_values_plainly(&batch, &mask, &names, &values) {
        Err(ExecError::Overflow(message)) => assert_eq!(
            message,
            "The new values may not fit into one column with the old ones"
        ),
        _ => panic!("a null key was taken"),
    }
    let updated = apply_values(&batch, &mask, &names, &values).unwrap();
    let texts = stored_texts(&updated.columns[0]).unwrap();
    assert_eq!(texts, vec!["c", "b"]);
    // Bytes are counted.
    let bytes: ArrayRef = Arc::new(BinaryArray::from_vec(vec![b"a", b"b"]));
    let batch = batch_of(RecordBatch::try_from_iter(vec![("b", bytes)]).unwrap());
    let values = vec![BinaryArray::from_vec(vec![b"c", b"d"]).to_data()];
    let updated = apply_values_plainly(&batch, &mask, &names, &values).unwrap();
    assert_eq!(updated.columns[0], BinaryArray::from_vec(vec![b"c", b"b"]).to_data());
}

#[test]
fn masks_are_read_from_truth_values() {
    let column = BooleanArray::from(vec![Some(true), None, Some(false)]).to_data();
    let mask = selection_mask(Some(&column), 3).unwrap();
    assert_eq!(mask, vec![Some(true), None, Some(false)]);
    assert!(has_matches(&mask));
    assert!(!has_matches(&vec![None, Some(false)]));
    assert_eq!(selection_mask(None, 2).unwrap(), vec![Some(true), Some(true)]);
    let names = vec!["a".to_string(), "b".to_string(), "a".to_string()];
    assert_eq!(last_place(&names, "a"), Some(2));
    assert_eq!(last_place(&names, "c"), None);
}

#[test]
fn short_columns_can_be_put_together() {
    let numbers = ints(vec![1]).to_data();
    let truths = BooleanArray::from(vec![true]).to_data();
    let texts = StringArray::from(vec!["a", "b"]).to_data();
    let no_texts = StringArray::from(Vec::<&str>::new()).to_data();
    let bytes = BinaryArray::from_vec(vec![b"a"]).to_data();
    assert!(can_append(&vec![&numbers, &numbers]));
    assert!(can_append(&vec![&truths]));
    assert!(can_append(&vec![&texts, &no_texts, &texts]));
    let views = StringViewArray::from(vec!["a"]).to_data();
    assert!(can_append(&vec![&bytes, &bytes]));
    assert!(can_append(&vec![&LargeStringArray::from(vec!["a"]).to_data()]));
    assert!(can_append(&vec![&views, &views]));
    assert!(!can_append(&vec![]));
    let lists = ListArray::from_iter_primitive::<Int32Type, _, _>(vec![Some(vec![Some(1)]), None]);
    let lists = lists.to_data();
    assert!(can_append(&vec![&lists, &lists]));
    let fields = Schema::new(vec![Field::new("a", DataType::Utf8, true)]).fields;
    let records = StructArray::new(fields, vec![Arc::new(StringArray::from(vec!["a", "b"]))], None);
    let records = records.to_data();
    assert!(can_append(&vec![&records]));
    assert!(can_append(&vec![&keyed(&["a"], &[0, 0]).to_data()]));
    // Too many values for the keys.
    let keys = Int8Array::from(vec![0]);
    let values = Int32Array::from((0..100).collect::<Vec<i32>>());
    let many = DictionaryArray::new(keys, Arc::new(values)).to_data();
    assert!(can_append(&vec![&many]));
    assert!(!can_append(&vec![&many, &many]));
    assert!(!can_append(&vec![&runs(vec![1], vec![Some(1)]).to_data()]));
    // Structs that start at an offset cannot be read.
    assert!(column_has_array(&records));
    assert!(!column_has_array(&records.slice(1, 1)));
    assert!(column_has_array(&texts.slice(1, 1)));
    // Columns of two types are not put together at all.
    assert!(can_append(&vec![&texts, &bytes]));
    assert!(can_append(&vec![&texts, &views]));
}

#[test]
fn not_every_type_has_an_array() {
    let nested = |item: DataType| DataType::List(Arc::new(Field::new("item", item, true)));
    let keyed = |key: DataType| DataType::Dictionary(Box::new(key), Box::new(DataType::Utf8));
    for (data_type, expected) in [
        (DataType::Utf8, true),
        (DataType::Time32(TimeUnit::Second), true),
        (DataType::Time32(TimeUnit::Microsecond), false),
        (DataType::Time64(TimeUnit::Millisecond), false),
        (DataType::Time64(TimeUnit::Nanosecond), true),
        (nested(DataType::Int32), true),
        (nested(DataType::Time64(TimeUnit::Second)), false),
        (keyed(DataType::UInt8), true),
        (keyed(DataType::Utf8), false),
    ] {
        assert_eq!(type_has_array(&data_type), expected, "{data_type}");
        let schema = Schema::new(vec![Field::new("a", data_type, true)]);
        assert_eq!(schema_has_arrays(&schema), expected);
    }
    assert!(columns_have_arrays(&rows().columns));
    assert!(is_text_type(&keyed(DataType::Int32)));
    assert!(!is_text_type(&DataType::Binary));
    let runs = DataType::RunEndEncoded(
        Arc::new(Field::new("run_ends", DataType::Int32, false)),
        Arc::new(Field::new("values", DataType::LargeUtf8, true)),
    );
    assert!(is_text_type(&runs));
    assert!(type_is_comparable(&runs));
    assert!(type_holds_runs(&nested(runs.clone())));
    assert!(!type_is_comparable(&nested(runs)));
    assert!(type_is_comparable(&nested(DataType::Int32)));
    assert!(type_is_comparable(&keyed(DataType::UInt8)));
    assert!(!type_holds_runs(&nested(DataType::Int32)));
}

#[test]
fn filters_are_joined_from_the_left() {
    let filters = vec!["a", "b", "c"];
    match combine_filters(&filters) {
        Some(FilterTree::And(left, right)) => {
            assert!(matches!(*right, FilterTree::Filter(filter) if *filter == "c"));
            match *left {
                FilterTree::And(first, second) => {
                    assert!(matches!(*first, FilterTree::Filter(filter) if *filter == "a"));
                    assert!(matches!(*second, FilterTree::Filter(filter) if *filter == "b"));
                }
                _ => panic!("the first two are not joined"),
            }
        }
        _ => panic!("the filters are not joined"),
    }
    assert!(matches!(
        combine_filters(&vec!["a"]),
        Some(FilterTree::Filter(filter)) if *filter == "a"
    ));
    assert!(combine_filters(&Vec::<&str>::new()).is_none());
}

#[test]
fn scanned_files_become_data_files() {
    let scanned = vec![
        ScannedFile {
            data_file_path: "a.parquet".to_string(),
            partition: None,
            data_file_format: FileFormat::Parquet,
            file_size_in_bytes: 10,
            record_count: Some(3),
        },
        ScannedFile {
            data_file_path: "b.avro".to_string(),
            partition: Some(Struct::from_iter(vec![None])),
            data_file_format: FileFormat::Avro,
            file_size_in_bytes: 20,
            record_count: None,
        },
    ];
    let files = deleted_data_files(scanned, 5).unwrap();
    assert_eq!(files.len(), 2);
    assert_eq!(files[0].file_path(), "a.parquet");
    assert_eq!(files[0].file_format(), DataFileFormat::Parquet);
    assert_eq!(files[0].file_size_in_bytes(), 10);
    assert_eq!(files[0].record_count(), 3);
    assert_eq!(files[0].content_type(), DataContentType::Data);
    assert_eq!(files[0].partition(), &Struct::empty());
    assert_eq!(files[1].file_path(), "b.avro");
    assert_eq!(files[1].file_format(), DataFileFormat::Avro);
    assert_eq!(files[1].file_size_in_bytes(), 20);
    assert_eq!(files[1].record_count(), 0);
    assert_eq!(files[1].partition(), &Struct::from_iter(vec![None]));

    let scanned = vec![ScannedFile {
        data_file_path: "c.orc".to_string(),
        partition: None,
        data_file_format: FileFormat::Orc,
        file_size_in_bytes: 30,
        record_count: Some(1),
    }];
    let files = node(vec![]).get_deleted_data_files(scanned).unwrap();
    assert_eq!(files.len(), 1);
    assert_eq!(files[0].file_path(), "c.orc");
    assert_eq!(files[0].file_format(), DataFileFormat::Orc);
}

#[test]
fn metrics_count_batches_and_rows() {
    let mut run = UpdateWriteRun::start(vec![]);
    let written = run.step((rows(), true));
    assert_eq!(written.columns, rows().columns);
    run.step((rows(), false));
    assert_eq!(
        run.metrics,
        UpdateMetrics {
            total_batches: 2,
            batches_with_updates: 1,
            total_rows_scanned: 6,
            total_rows_updated: 3,
        }
    );
    assert!(run.metrics.has_room_for(1));
    let full = UpdateMetrics { total_rows_scanned: u64::MAX - 1, ..UpdateMetrics::new() };
    assert!(full.has_room_for(1));
    assert!(!full.has_room_for(2));
}

#[test]
fn update_write_nodes_are_shown_with_their_table() {
    let exec = node(vec![("value", number(1)), ("i\"d", number(2))]);
    let line = "IcebergUpdateWriteExec: table=test_namespace.test_table";
    assert_eq!(exec.fmt_as(DisplayFormat::Default), format!("{line}, assignments=2"));
    assert_eq!(exec.fmt_as(DisplayFormat::TreeRender), line);
    assert_eq!(
        exec.fmt_as(DisplayFormat::Verbose),
        format!(
            "{line}, assignments=[\"value\", \"i\\\"d\"], result_schema={:?}",
            exec.result_schema
        )
    );
    assert_eq!(exec.name(), "IcebergUpdateWriteExec");
    assert_eq!(exec.children(), vec!["scan"]);
    assert_eq!(exec.benefits_from_input_partitioning(), vec![false]);
    assert_eq!(exec.maintains_input_order(), vec![true]);
    assert_eq!(exec.plan_properties.partition_count, 2);
    let copy = exec.clone();
    assert_eq!(copy.filters, exec.filters);
    assert_eq!(copy.assignments.len(), 2);
    assert_eq!(copy.fmt_as(DisplayFormat::Verbose), exec.fmt_as(DisplayFormat::Verbose));
    match exec.with_new_children(vec![]) {
        Err(ExecError::Internal(message)) => assert_eq!(
            message,
            "IcebergUpdateWriteExec expects exactly one child, but provided 0"
        ),
        _ => panic!("no child was taken"),
    }
    let child = PlanInput { plan: "other".to_string(), partition_count: 9 };
    let moved = copy.with_new_children(vec![child]).unwrap();
    assert_eq!(moved.input.plan, "other");
    assert_eq!(moved.plan_properties.partition_count, 9);
    assert_eq!(moved.filters, vec!["id = 1"]);
}

#[test]
fn updated_rows_are_written_as_parquet_only() {
    let exec = |format: &str| {
        let input = PlanInput { plan: "scan".to_string(), partition_count: 1 };
        let filters: Vec<String> = vec![];
        let assignments: Vec<(String, Expression)> = vec![];
        let table = table_with(&[("write.format.default", format)]);
        IcebergUpdateWriteExec::new(table, input, filters, assignments, rows().schema)
    };
    assert!(exec("parquet").prepare().is_ok());
    match exec("orc").prepare() {
        Err(ExecError::FeatureUnsupported(message)) => {
            assert_eq!(message, "File format orc is not supported for UPDATE yet!")
        }
        _ => panic!("orc was taken"),
    }
    assert!(matches!(exec("").prepare(), Err(ExecError::Iceberg(_))));
}

#[test]
fn an_update_reports_its_files() {
    let run = UpdateWriteRun::start(vec![data_file("old.parquet", 10, 3)]);
    let batch = run.finish(&vec![data_file("new.parquet", 11, 4)], &info()).unwrap();
    assert_eq!(batch.row_count, 1);
    let new = read_column(&batch, DATA_FILES_COL_NAME).unwrap();
    let old = read_column(&batch, DELETED_FILES_COL_NAME).unwrap();
    assert!(new[0].contains("new.parquet"));
    assert!(old[0].contains("old.parquet"));
    // The lists need not be of one length.
    let batch = run.finish(&vec![], &info()).unwrap();
    assert_eq!(batch.row_count, 1);
    assert!(read_column(&batch, DATA_FILES_COL_NAME).unwrap().is_empty());
    assert_eq!(read_column(&batch, DELETED_FILES_COL_NAME).unwrap().len(), 1);
    let new = vec![data_file("a.parquet", 1, 1), data_file("b.parquet", 1, 1)];
    let batch = run.finish(&new, &info()).unwrap();
    assert_eq!(batch.row_count, 2);
    assert_eq!(read_column(&batch, DATA_FILES_COL_NAME).unwrap().len(), 2);
    assert_eq!(read_column(&batch, DELETED_FILES_COL_NAME).unwrap().len(), 1);
    let made = UpdateNode::make_result_batch(vec!["a".to_string()], vec!["b".to_string()]);
    assert_eq!(made.unwrap().row_count, 1);
}

#[test]
fn written_files_read_back() {
    let files = vec![data_file("a.parquet", 10, 3), data_file("b.parquet", 20, 4)];
    let table = info();
    let strings = serialize_data_files(&files, &table).unwrap();
    assert_eq!(strings.len(), 2);
    let read = deserialize_data_files(&strings, &table).unwrap();
    assert_eq!(read.len(), 2);
    assert_eq!(read[0].file_path(), "a.parquet");
    assert_eq!(read[1].file_path(), "b.parquet");
    assert_eq!(read[1].file_size_in_bytes(), 20);
    assert_eq!(read[1].record_count(), 4);
    assert!(matches!(
        deserialize_data_files(&vec!["{}".to_string()], &table),
        Err(ExecError::Iceberg(_))
    ));
    // The file is read under the partition spec of the reader's table.
    let other = TableInfo { partition_spec_id: 4, ..info() };
    let read = deserialize_data_files(&strings, &other).unwrap();
    assert!(format!("{:?}", read[0]).contains("partition_spec_id: 4"));
}

#[test]
fn partition_values_of_the_right_kind_read_back() {
    let table = |fields: Vec<(&str, PrimitiveType)>| {
        let fields = fields.into_iter().enumerate().map(|(i, (name, field_type))| {
            NestedField::optional(1000 + i as i32, name, Type::Primitive(field_type)).into()
        });
        TableInfo { partition_type: StructType::new(fields.collect()), ..info() }
    };
    let file = |values: Vec<Option<PartitionValue>>| {
        DataFileBuilder::default()
            .content(DataContentType::Data)
            .file_path("a.parquet".to_string())
            .file_format(DataFileFormat::Parquet)
            .file_size_in_bytes(1)
            .record_count(1)
            .partition_spec_id(0)
            .partition(Struct::from_iter(values))
            .build()
            .unwrap()
    };
    let parted = table(vec![
        ("a", PrimitiveType::Int),
        ("b", PrimitiveType::String),
        ("c", PrimitiveType::Date),
        ("d", PrimitiveType::Timestamp),
        ("e", PrimitiveType::Boolean),
        ("f", PrimitiveType::Long),
    ]);
    let values = || {
        vec![
            Some(PartitionValue::int(-7)),
            Some(PartitionValue::string("x")),
            Some(PartitionValue::date(9)),
            Some(PartitionValue::timestamp(-1)),
            Some(PartitionValue::bool(true)),
            None,
        ]
    };
    assert!(parted.reads_back(&file(values())));
    let strings = serialize_data_files(&vec![file(values())], &parted).unwrap();
    let read = deserialize_data_files(&strings, &parted).unwrap();
    assert_eq!(read[0].partition(), &Struct::from_iter(values()));
    assert!(parted.keeps_partition(&file(values())));
    // A short number is read back as a long one where the field is long.
    let long = table(vec![("a", PrimitiveType::Long)]);
    let short = file(vec![Some(PartitionValue::int(3))]);
    assert!(long.reads_back(&short));
    assert!(!long.keeps_partition(&short));
    let strings = serialize_data_files(&vec![short], &long).unwrap();
    let read = deserialize_data_files(&strings, &long).unwrap();
    assert_eq!(read[0].partition(), &Struct::from_iter(vec![Some(PartitionValue::long(3))]));

    let nanos = table(vec![("a", PrimitiveType::TimestampNs)]);
    let other = file(vec![Some(PartitionValue::long(1))]);
    assert!(!nanos.reads_back(&other));
    let strings = serialize_data_files(&vec![other], &nanos).unwrap();
    assert!(deserialize_data_files(&strings, &nanos).is_err());
    let twice = table(vec![("a", PrimitiveType::Int), ("a", PrimitiveType::Int)]);
    assert!(!twice.reads_back(&file(vec![Some(PartitionValue::int(1))])));
}

#[test]
fn bounds_of_the_right_type_read_back() {
    let table = info();
    let with_bounds = |lower: Vec<(i32, Datum)>, upper: Vec<(i32, Datum)>| {
        DataFileBuilder::default()
            .content(DataContentType::Data)
            .file_path("a.parquet".to_string())
            .file_format(DataFileFormat::Parquet)
            .file_size_in_bytes(1)
            .record_count(1)
            .partition_spec_id(0)
            .partition(Struct::empty())
            .lower_bounds(lower.into_iter().collect())
            .upper_bounds(upper.into_iter().collect())
            .build()
            .unwrap()
    };
    let file = with_bounds(vec![(1, Datum::int(3))], vec![(1, Datum::int(5)), (2, Datum::int(7))]);
    assert!(table.reads_back(&file));
    let strings = serialize_data_files(&vec![file], &table).unwrap();
    let read = deserialize_data_files(&strings, &table).unwrap();
    assert_eq!(read[0].upper_bounds()[&2], Datum::int(7));
    assert!(table.reads_back(&data_file("a.parquet", 1, 1)));
    // Three bytes are no number.
    let file = with_bounds(vec![(1, Datum::string("abc"))], vec![]);
    assert!(!table.reads_back(&file));
    let strings = serialize_data_files(&vec![file], &table).unwrap();
    assert!(deserialize_data_files(&strings, &table).is_err());
    assert!(!table.reads_back(&with_bounds(vec![], vec![(9, Datum::int(1))])));
    // A value beyond the range of its type is none of that type.
    let beyond = Datum::long(i64::MAX).to(&Type::Primitive(PrimitiveType::Int)).unwrap();
    assert_eq!(beyond.data_type(), &PrimitiveType::Int);
    let file = with_bounds(vec![(1, beyond)], vec![]);
    assert!(!table.reads_back(&file));
    assert!(serialize_data_files(&vec![file], &table).is_err());
}

#[test]
fn test_update_commit_exec() {
    let table = table();

    let new_file = DataFileBuilder::default()
        .content(DataContentType::Data)
        .file_path("path/to/new_file.parquet".to_string())
        .file_format(DataFileFormat::Parquet)
        .file_size_in_bytes(2048)
        .record_count(150)
        .partition_spec_id(table.metadata().default_partition_spec_id())
        .partition(Struct::empty())
        .build()
        .unwrap();

    let partition_type = table.metadata().default_partition_type().clone();
    let format_version = table.metadata().format_version();
    let new_file_json =
        serialize_data_file_to_json(new_file, &partition_type, format_version).unwrap();

    let deleted_file = DataFileBuilder::default()
        .content(DataContentType::Data)
        .file_path("path/to/old_file.parquet".to_string())
        .file_format(DataFileFormat::Parquet)
        .file_size_in_bytes(1024)
        .record_count(100)
        .partition_spec_id(table.metadata().default_partition_spec_id())
        .partition(Struct::empty())
        .build()
        .unwrap();

    let deleted_file_json =
        serialize_data_file_to_json(deleted_file, &partition_type, format_version).unwrap();

    let arrow_schema = Arc::new(Schema::new(vec![
        Field::new(DATA_FILES_COL_NAME, DataType::Utf8, false),
        Field::new(DELETED_FILES_COL_NAME, DataType::Utf8, false),
    ]));
    let written = batch_of(
        RecordBatch::try_new(arrow_schema.clone(), vec![
            Arc::new(StringArray::from(vec![new_file_json])),
            Arc::new(StringArray::from(vec![deleted_file_json])),
        ])
        .unwrap(),
    );

    let input = PlanInput { plan: "write".to_string(), partition_count: 1 };
    let commit_exec =
        IcebergUpdateCommitExec::new(table, "catalog".to_string(), input, arrow_schema);

    assert_eq!(
        commit_exec.plan_properties.schema,
        IcebergUpdateCommitExec::<String, String>::make_count_schema()
    );

    commit_exec.check_partition(0).unwrap();
    let mut run = CommitRun::start();
    run.absorb(&written, &commit_exec.table_info()).unwrap();
    let delta = match commit_exec.decide(run) {
        CommitAction::Commit(delta) => delta,
        CommitAction::Nothing(_) => panic!("there is a change"),
    };
    let added = delta.added.unwrap();
    assert_eq!(added.len(), 1);
    assert_eq!(added[0].file_path(), "path/to/new_file.parquet");
    assert_eq!(added[0].file_size_in_bytes(), 2048);
    let removed = delta.removed.unwrap();
    assert_eq!(removed.len(), 1);
    assert_eq!(removed[0].file_path(), "path/to/old_file.parquet");
    assert_eq!(removed[0].file_size_in_bytes(), 1024);
    assert_eq!(removed[0].record_count(), 100);

    let batch =
        IcebergUpdateCommitExec::<String, String>::make_count_batch(delta.count).unwrap();
    let batch = record_batch(&batch);
    assert_eq!(batch.num_columns(), 1);
    assert_eq!(batch.num_rows(), 1);

    let count_array = batch.column(0).as_any().downcast_ref::<UInt64Array>().unwrap();
    assert_eq!(count_array.value(0), 150); // Record count from new file
    assert_eq!(batch.schema(), IcebergUpdateCommitExec::<String, String>::make_count_schema());
}

fn commit_node() -> IcebergUpdateCommitExec<String, String> {
    let input = PlanInput { plan: "write".to_string(), partition_count: 1 };
    let schema = UpdateNode::make_result_schema();
    IcebergUpdateCommitExec::new(table(), "catalog".to_string(), input, schema)
}

#[test]
fn reports_carry_over_to_the_commit() {
    let mut run = CommitRun::start();
    for (new, old) in [(40, 30), (2, 1)] {
        let write = UpdateWriteRun::start(vec![data_file("old", 1, old)]);
        let report = write.finish(&vec![data_file("new", 1, new)], &info()).unwrap();
        run.absorb(&report, &info()).unwrap();
    }
    assert_eq!(run.new_files.len(), 2);
    assert_eq!(run.deleted_files.len(), 2);
    assert_eq!(run.total_record_count, 42);
    assert_eq!(run.new_files[0].record_count(), 40);
    assert_eq!(run.deleted_files[1].record_count(), 1);
}

#[test]
fn files_are_added_up() {
    let mut run = CommitRun::start();
    run.add_files(vec![data_file("a", 1, 5), data_file("b", 1, 6)], vec![data_file("c", 1, 7)]);
    run.add_files(vec![data_file("d", 1, 8)], vec![]);
    assert_eq!(run.total_record_count, 19);
    assert_eq!(run.new_files.len(), 3);
    assert_eq!(run.new_files[2].file_path(), "d");
    assert_eq!(run.deleted_files.len(), 1);
}

#[test]
fn no_change_is_an_empty_result() {
    let mut run = CommitRun::start();
    let nothing = report(vec![], vec![], "context").unwrap();
    run.absorb(&nothing, &info()).unwrap();
    match commit_node().decide(run) {
        CommitAction::Nothing(batch) => {
            assert_eq!(batch.row_count, 0);
            assert_eq!(batch.schema.field(0).name(), "count");
            assert_eq!(batch.schema.field(0).data_type(), &DataType::UInt64);
            assert!(!batch.schema.field(0).is_nullable());
        }
        CommitAction::Commit(_) => panic!("there is no change"),
    }
}

#[test]
fn one_side_of_a_change_may_be_empty() {
    let json = serialize_data_files(&vec![data_file("a", 1, 5)], &info()).unwrap();
    let one = json[0].as_str();
    let mut run = CommitRun::start();
    let written = text_batch(vec![
        ("data_files", vec![None, Some(one)]),
        ("deleted_files", vec![None, None]),
    ]);
    run.absorb(&written, &info()).unwrap();
    match commit_node().decide(run) {
        CommitAction::Commit(delta) => {
            assert_eq!(delta.added.unwrap().len(), 1);
            assert!(delta.removed.is_none());
            assert_eq!(delta.count, 5);
        }
        CommitAction::Nothing(_) => panic!("there is a change"),
    }
    let mut run = CommitRun::start();
    let replaced = text_batch(vec![("data_files", vec![None]), ("deleted_files", vec![Some(one)])]);
    run.absorb(&replaced, &info()).unwrap();
    match commit_node().decide(run) {
        CommitAction::Commit(delta) => {
            assert!(delta.added.is_none());
            assert_eq!(delta.removed.unwrap().len(), 1);
            assert_eq!(delta.count, 0);
        }
        CommitAction::Nothing(_) => panic!("there is a change"),
    }
}

#[test]
fn unreadable_reports_are_refused() {
    let refused = |batch: Batch| {
        let mut run = CommitRun::start();
        let error = run.absorb(&batch, &info()).unwrap_err();
        assert!(run.new_files.is_empty() && run.deleted_files.is_empty());
        error
    };
    let internal = |batch: Batch| match refused(batch) {
        ExecError::Internal(message) => message,
        _ => panic!("another error"),
    };
    assert_eq!(
        internal(text_batch(vec![("other", vec![None])])),
        "Expected 'data_files' column in UPDATE write batch"
    );
    assert_eq!(
        internal(text_batch(vec![("data_files", vec![None])])),
        "Expected 'deleted_files' column in UPDATE write batch"
    );
    let numbers = |name: &str, other: &str| {
        let texts: ArrayRef = Arc::new(StringArray::from(vec!["a"]));
        batch_of(RecordBatch::try_from_iter(vec![(name, ints(vec![1])), (other, texts)]).unwrap())
    };
    assert_eq!(
        internal(numbers("data_files", "deleted_files")),
        "Expected 'data_files' column to be StringArray"
    );
    assert_eq!(
        internal(numbers("deleted_files", "data_files")),
        "Expected 'deleted_files' column to be StringArray"
    );
    let no_file = text_batch(vec![("data_files", vec![Some("?")]), ("deleted_files", vec![None])]);
    assert!(matches!(refused(no_file), ExecError::Iceberg(_)));
    let no_file = text_batch(vec![("data_files", vec![None]), ("deleted_files", vec![Some("?")])]);
    assert!(matches!(refused(no_file), ExecError::Iceberg(_)));
}

#[test]
fn records_have_to_be_countable() {
    let files = vec![data_file("a", 1, i64::MAX as u64), data_file("b", 1, i64::MAX as u64)];
    let json = serialize_data_files(&files, &info()).unwrap();
    let written = text_batch(vec![
        ("data_files", vec![Some(json[0].as_str()), Some(json[1].as_str())]),
        ("deleted_files", vec![None, None]),
    ]);
    let mut run = CommitRun::start();
    run.absorb(&written, &info()).unwrap();
    assert_eq!(run.total_record_count, u64::MAX - 1);
    match run.absorb(&written, &info()) {
        Err(ExecError::Overflow(message)) => {
            assert_eq!(message, "The new files hold too many records")
        }
        _ => panic!("the count ran over"),
    }
    assert_eq!(run.new_files.len(), 2);
}

#[test]
fn commit_nodes_are_shown_with_their_table() {
    let exec = commit_node();
    let line = "IcebergUpdateCommitExec: table=test_namespace.test_table";
    assert_eq!(exec.fmt_as(DisplayFormat::Default), line);
    assert_eq!(exec.fmt_as(DisplayFormat::TreeRender), line);
    assert_eq!(
        exec.fmt_as(DisplayFormat::Verbose),
        format!("{line}, schema={:?}", exec.schema)
    );
    assert_eq!(exec.name(), "IcebergUpdateCommitExec");
    assert_eq!(exec.children(), vec!["write"]);
    assert_eq!(exec.required_input_distribution(), vec![InputDistribution::SinglePartition]);
    assert_eq!(exec.benefits_from_input_partitioning(), vec![false]);
    match exec.check_partition(31) {
        Err(ExecError::Internal(message)) => assert_eq!(
            message,
            "IcebergUpdateCommitExec only has one partition, but got partition 31"
        ),
        _ => panic!("there is one partition only"),
    }
    let copy = exec.clone();
    assert_eq!(copy.catalog, "catalog");
    assert_eq!(copy.fmt_as(DisplayFormat::Verbose), exec.fmt_as(DisplayFormat::Verbose));
    let children = |n: usize| {
        (0..n).map(|i| PlanInput { plan: format!("plan {i}"), partition_count: 1 }).collect()
    };
    match exec.with_new_children(children(2)) {
        Err(ExecError::Internal(message)) => assert_eq!(
            message,
            "IcebergUpdateCommitExec expects exactly one child, but provided 2"
        ),
        _ => panic!("two children were taken"),
    }
    assert_eq!(copy.with_new_children(children(1)).unwrap().input.plan, "plan 0");
}

#[test]
fn texts_are_read_without_nulls() {
    let column = StringArray::from(vec![Some("a"), None, Some("b")]).to_data();
    assert_eq!(column_texts(&column).unwrap(), vec!["a", "b"]);
    assert!(column_texts(&ints(vec![1]).to_data()).is_none());
    let wide = LargeStringArray::from(vec![Some("a"), None, Some("b")]).to_data();
    assert!(column_texts(&wide).is_none());
    assert_eq!(stored_texts(&wide).unwrap(), vec!["a", "b"]);
    assert_eq!(stored_texts(&column).unwrap(), vec!["a", "b"]);
    assert!(stored_texts(&ints(vec![1]).to_data()).is_none());
}

#[test]
fn small_operations_on_strings() {
    assert_eq!(decimal_text(0), "0");
    assert_eq!(decimal_text(9), "9");
    assert_eq!(decimal_text(1020), "1020");
    assert_eq!(decimal_text(usize::MAX), usize::MAX.to_string());
    let parts = vec!["a".to_string(), "bc".to_string(), "ß".to_string()];
    assert_eq!(join(&parts, "."), "a.bc.ß");
    assert_eq!(join(&vec![], "."), "");
    assert!(same_text("ab", "ab"));
    assert!(!same_text("ab", "aB"));
    assert!(utf8_bytes_within(&parts, 5));
    assert!(!utf8_bytes_within(&parts, 4));
}
