//! Arrow columns and schemas as the rest of the library sees them: what a column
//! holds, what a schema says, and the Arrow functions that the library calls.
//!
//! An Arrow value is opaque here. What it holds has a name, such as
//! [`column_cells`], and each function below says over those names what the Arrow
//! function does that it calls. Those statements are believed, not proved.

use std::sync::Arc;

use datafusion::arrow::array::{
    Array, ArrayData, AsArray, BooleanArray, RecordBatch, RecordBatchOptions, StringArray,
    UInt64Array, make_array,
};
use datafusion::arrow::compute::kernels::zip::zip;
use datafusion::arrow::datatypes::{DataType, Field, Int16Type, Int32Type, Int64Type, Schema};
use datafusion::arrow::error::ArrowError;
use datafusion::arrow::util::display::{ArrayFormatter, FormatOptions};
use vstd::prelude::*;

use crate::batch::Batch;
use crate::capacity::appendable;
use crate::text::{texts, utf8_bytes};
use crate::types::{
    ColumnType, TypeParts, comparable, has_array, is_text, is_text_type, item_of, parts_of,
    plain_type, type_has_array, type_of, types_of, uint64,
};

verus! {

/// A column of values of one type.
#[verifier::external_type_specification]
#[verifier::external_body]
pub struct ExArrayData(ArrayData);

/// The fields of a batch, and what else its producer noted down.
#[verifier::external_type_specification]
#[verifier::external_body]
pub struct ExSchema(Schema);

/// A column's name, type and nullability.
#[verifier::external_type_specification]
#[verifier::external_body]
pub struct ExField(Field);

/// Why an Arrow function failed.
#[verifier::external_type_specification]
#[verifier::external_body]
pub struct ExArrowError(ArrowError);

/// One value of a column. In columns of text, however stored, a value is a `Text`.
/// `Other` numbers the values of the types that the library does not look into: in
/// columns of one type, equal numbers stand for values that Arrow finds equal. So it is
/// with the numbers of `HiddenNull`: Arrow tells members of a union apart also where they
/// are null.
pub enum Cell {
    /// No value, as the column's own validity bitmap says.
    Null,
    /// No value, though the bitmap does not say so: a key or a run of a null, a row of
    /// the null type, a member of a union that is null.
    HiddenNull(int),
    Boolean(bool),
    UInt64(u64),
    Text(Seq<char>),
    Other(int),
}

/// Whether a cell holds a value.
pub open spec fn holds_value(cell: Cell) -> bool {
    !(cell is Null) && !(cell is HiddenNull)
}

/// What a field says of its column.
pub struct FieldInfo {
    pub name: Seq<char>,
    pub column_type: ColumnType,
    pub nullable: bool,
}

/// The type of a column.
pub uninterp spec fn column_type(column: ArrayData) -> ColumnType;

/// The values of a column, row by row.
pub uninterp spec fn column_cells(column: ArrayData) -> Seq<Cell>;

/// The columns that a column of parts is made of.
pub uninterp spec fn column_parts(column: ArrayData) -> Seq<ArrayData>;

/// How many values come before the first row in the buffers of a column.
pub uninterp spec fn column_offset(column: ArrayData) -> nat;

/// How many bytes of buffers the rows of a column need.
pub uninterp spec fn column_bytes(column: ArrayData) -> nat;

/// How many buffers a column has.
pub uninterp spec fn column_buffers(column: ArrayData) -> nat;

/// What a field says.
pub uninterp spec fn field_info(field: Field) -> FieldInfo;

/// The fields of a schema, in order.
pub uninterp spec fn schema_fields(schema: Schema) -> Seq<Arc<Field>>;

/// The key-value pairs that a schema carries beside its fields.
pub uninterp spec fn schema_metadata(schema: Schema) -> Map<Seq<char>, Seq<char>>;

/// Whether Arrow can copy rows of these columns, each at most once, into one new
/// column of their type. No 32-bit offset, dictionary key, run end or buffer index of
/// the new column may overflow: Arrow panics or fails where one does. No part of a
/// column may be a slice of run-end encoded values, or such values without a run:
/// Arrow reads these as if they were not sliced, or panics. And no key of a null may
/// stand in a list or struct that forbids nulls: Arrow fails there.
pub uninterp spec fn rows_fit(columns: Seq<ArrayData>) -> bool;

/// The texts that `{:?}` may write for a schema. There is more than one where
/// metadata has several keys: these are written in no fixed order.
pub uninterp spec fn schema_texts(schema: Schema) -> Set<Seq<char>>;

/// The names of a schema's fields, in order.
pub open spec fn field_names(schema: Schema) -> Seq<Seq<char>> {
    schema_fields(schema).map_values(|field: Arc<Field>| field_info(*field).name)
}

/// Two columns of one type that hold the same values.
pub open spec fn same_column(a: ArrayData, b: ArrayData) -> bool {
    column_type(a) == column_type(b) && column_cells(a) == column_cells(b)
}

/// No part of a column that has parts of its own starts at an offset. Arrow takes such
/// an offset off twice, or not at all; the columns that it makes have none.
pub open spec fn whole(column: ArrayData, column_type: ColumnType) -> bool
    decreases column_type,
{
    let parts = column_parts(column);
    match column_type {
        ColumnType::Dictionary(_, value) => parts.len() == 1 && whole(parts[0], *value),
        ColumnType::RunEndEncoded(_, _, value) => parts.len() == 2 && whole(parts[1], *value),
        ColumnType::List(_, _, item) => column_offset(column) == 0 && parts.len() == 1 && whole(
            parts[0],
            *item,
        ),
        ColumnType::Pairs(_, entry) => column_offset(column) == 0 && parts.len() == 1 && whole(
            parts[0],
            *entry,
        ),
        ColumnType::Record(_, fields) => column_offset(column) == 0 && parts.len() == fields.len()
            && forall|i: int| 0 <= i < fields.len() ==> whole(parts[i], #[trigger] fields[i]),
        ColumnType::Union(_, fields) => column_offset(column) == 0 && parts.len() == fields.len()
            && forall|i: int| 0 <= i < fields.len() ==> whole(parts[i], #[trigger] fields[i]),
        _ => true,
    }
}

/// Arrow can make an array of a column.
pub open spec fn arrayable(column: ArrayData) -> bool {
    has_array(column_type(column)) && whole(column, column_type(column))
}

/// Arrow can make an array of every column.
pub open spec fn all_arrays(columns: Seq<ArrayData>) -> bool {
    forall|i: int| 0 <= i < columns.len() ==> arrayable(#[trigger] columns[i])
}

/// Arrow has an array for every field of a schema.
pub open spec fn fields_have_arrays(schema: Schema) -> bool {
    forall|i: int|
        0 <= i < schema_fields(schema).len() ==> has_array(
            field_info(*#[trigger] schema_fields(schema)[i]).column_type,
        )
}

/// Two lists of columns that agree column by column.
pub open spec fn same_columns(a: Seq<ArrayData>, b: Seq<ArrayData>) -> bool {
    a.len() == b.len() && forall|i: int| 0 <= i < a.len() ==> same_column(#[trigger] a[i], b[i])
}

/// Whether a column may stand under a field, in a batch of `rows` rows.
pub open spec fn column_fits(field: FieldInfo, column: ArrayData, rows: nat) -> bool {
    &&& column_type(column) == field.column_type
    &&& column_cells(column).len() == rows
    &&& !field.nullable ==> !column_cells(column).contains(Cell::Null)
}

/// Whether the columns may stand under the schema, in a batch of `rows` rows.
pub open spec fn columns_fit(schema: Schema, columns: Seq<ArrayData>, rows: nat) -> bool {
    &&& schema_fields(schema).len() == columns.len()
    &&& forall|i: int|
        0 <= i < columns.len() ==> column_fits(
            field_info(*schema_fields(schema)[i]),
            #[trigger] columns[i],
            rows,
        )
}

/// The rows that a mask keeps, in order.
pub open spec fn kept<T>(rows: Seq<T>, mask: Seq<bool>) -> Seq<T>
    decreases rows.len(),
{
    if rows.len() == 0 {
        rows
    } else if mask.last() {
        kept(rows.drop_last(), mask.drop_last()).push(rows.last())
    } else {
        kept(rows.drop_last(), mask.drop_last())
    }
}

/// How many rows a mask keeps.
pub open spec fn kept_count(mask: Seq<bool>) -> nat
    decreases mask.len(),
{
    if mask.len() == 0 {
        0
    } else if mask.last() {
        kept_count(mask.drop_last()) + 1
    } else {
        kept_count(mask.drop_last())
    }
}

/// Row by row, the new value where the mask says true and the old one elsewhere,
/// also where the mask says nothing.
pub open spec fn blended(mask: Seq<Option<bool>>, new: Seq<Cell>, old: Seq<Cell>) -> Seq<Cell> {
    Seq::new(old.len(), |i: int| if mask[i] == Some(true) { new[i] } else { old[i] })
}

/// The values of one column over all batches, one batch after another.
pub open spec fn concatenated(batches: Seq<Batch>, i: int) -> Seq<Cell>
    decreases batches.len(),
{
    if batches.len() == 0 {
        Seq::empty()
    } else {
        concatenated(batches.drop_last(), i) + column_cells(batches.last().columns@[i])
    }
}

/// How many rows the batches have, all together.
pub open spec fn total_rows(batches: Seq<Batch>) -> nat
    decreases batches.len(),
{
    if batches.len() == 0 {
        0
    } else {
        total_rows(batches.drop_last()) + batches.last().row_count as nat
    }
}

/// One column of every batch.
pub open spec fn column_of_each(batches: Seq<Batch>, i: int) -> Seq<ArrayData> {
    batches.map_values(|batch: Batch| batch.columns@[i])
}

/// Whether the batches can be put one after another under the schema: each has the
/// types of the schema's fields in its first columns, and no null where a field
/// forbids it.
pub open spec fn batches_fit(schema: Schema, batches: Seq<Batch>) -> bool {
    batches.len() > 0 ==> forall|i: int|
        #![trigger schema_fields(schema)[i]]
        0 <= i < schema_fields(schema).len() ==> {
            let field = field_info(*schema_fields(schema)[i]);
            &&& forall|k: int|
                0 <= k < batches.len() ==> column_type(#[trigger] batches[k].columns@[i])
                    == field.column_type
            &&& !field.nullable ==> !concatenated(batches, i).contains(Cell::Null)
        }
}

/// The texts among the values of a column, in order. Nulls are left out.
pub open spec fn texts_in(cells: Seq<Cell>) -> Seq<Seq<char>>
    decreases cells.len(),
{
    if cells.len() == 0 {
        Seq::empty()
    } else {
        match cells.last() {
            Cell::Text(text) => texts_in(cells.drop_last()).push(text),
            _ => texts_in(cells.drop_last()),
        }
    }
}

/// The cell of a text, or of none.
pub open spec fn text_cell(value: Option<String>) -> Cell {
    match value {
        Some(text) => Cell::Text(text@),
        None => Cell::Null,
    }
}

/// The texts that are there.
pub open spec fn present(values: Seq<Option<String>>) -> Seq<Seq<char>>
    decreases values.len(),
{
    if values.len() == 0 {
        Seq::empty()
    } else {
        match values.last() {
            Some(text) => present(values.drop_last()).push(text@),
            None => present(values.drop_last()),
        }
    }
}

/// A column that holds the given texts.
pub open spec fn text_cells(strings: Seq<Seq<char>>) -> Seq<Cell> {
    strings.map_values(|text: Seq<char>| Cell::Text(text))
}

/// Reading the texts of a column gives back the texts that it was made of.
pub proof fn texts_read_back(strings: Seq<Seq<char>>)
    ensures
        texts_in(text_cells(strings)) == strings,
    decreases strings.len(),
{
    if strings.len() > 0 {
        texts_read_back(strings.drop_last());
        assert(text_cells(strings).drop_last() =~= text_cells(strings.drop_last()));
        assert(strings.drop_last().push(strings.last()) =~= strings);
    }
}

/// The types that the library gives to columns of its own.
#[derive(Clone, Copy, Debug, PartialEq, Eq, Structural)]
pub enum ValueType {
    UInt64,
    Utf8,
}

impl ValueType {
    pub open spec fn column_type(self) -> ColumnType {
        match self {
            ValueType::UInt64 => uint64(),
            ValueType::Utf8 => ColumnType::Utf8,
        }
    }
}

/// [`Field::name`] returns the field's name.
pub assume_specification[ Field::name ](field: &Field) -> (name: &String)
    ensures
        name@ == field_info(*field).name,
;

/// [`Field::data_type`] returns the type that the field's column has.
pub assume_specification[ Field::data_type ](field: &Field) -> (data_type: &DataType)
    ensures
        type_of(*data_type) == field_info(*field).column_type,
;

/// [`ArrayData::data_type`] returns the type of the column.
pub assume_specification[ ArrayData::data_type ](column: &ArrayData) -> (data_type: &DataType)
    ensures
        type_of(*data_type) == column_type(*column),
;

/// [`ArrayData::child_data`] hands out the columns that a column is made of.
pub assume_specification[ ArrayData::child_data ](column: &ArrayData) -> (parts: &[ArrayData])
    ensures
        parts@ == column_parts(*column),
;

/// [`ArrayData::null_count`] counts the nulls, as the validity bitmap has them.
pub assume_specification[ ArrayData::null_count ](column: &ArrayData) -> (count: usize)
    ensures
        (count == 0) == !column_cells(*column).contains(Cell::Null),
;

/// [`ArrayData::buffers`] hands out the buffers of a column.
#[verifier::external_body]
pub(crate) fn count_buffers(column: &ArrayData) -> (count: usize)
    ensures
        count == column_buffers(*column),
{
    column.buffers().len()
}

/// [`ArrayData::offset`] tells where the first row is in the buffers.
pub assume_specification[ ArrayData::offset ](column: &ArrayData) -> (offset: usize)
    ensures
        offset == column_offset(*column),
;

/// [`Field::new`] makes a field of the given name, type and nullability.
#[verifier::external_body]
pub(crate) fn new_field(name: &str, value_type: ValueType, nullable: bool) -> (field: Field)
    ensures
        field_info(field) == (FieldInfo {
            name: name@,
            column_type: value_type.column_type(),
            nullable,
        }),
{
    let data_type = match value_type {
        ValueType::UInt64 => DataType::UInt64,
        ValueType::Utf8 => DataType::Utf8,
    };
    Field::new(name, data_type, nullable)
}

/// [`Schema::fields`] hands out the fields in order.
#[verifier::external_body]
pub(crate) fn fields_of(schema: &Schema) -> (fields: Vec<Arc<Field>>)
    ensures
        fields@ == schema_fields(*schema),
{
    schema.fields().to_vec()
}

/// [`Schema::new`] makes a schema of the given fields, without metadata.
#[verifier::external_body]
pub(crate) fn new_schema(fields: Vec<Arc<Field>>) -> (schema: Arc<Schema>)
    ensures
        schema_fields(*schema) == fields@,
        schema_metadata(*schema).is_empty(),
{
    Arc::new(Schema::new(fields))
}

/// [`format!`] with `{:?}` writes all there is to a schema.
#[verifier::external_body]
pub(crate) fn schema_text(schema: &Schema) -> (text: String)
    ensures
        schema_texts(*schema).contains(text@),
{
    format!("{schema:?}")
}

/// `ArrayData::clone` makes a column of the same type with the same values, made of the
/// same parts.
pub assume_specification[ <ArrayData as Clone>::clone ](column: &ArrayData) -> (copy: ArrayData)
    ensures
        same_column(copy, *column),
        arrayable(copy) == arrayable(*column),
;

/// [`RecordBatch::try_new`] accepts at least one column, and exactly the columns
/// that fit the schema with as many rows as the first of them has. The batch then
/// holds the columns unchanged.
#[verifier::external_body]
pub(crate) fn try_new(schema: Arc<Schema>, columns: Vec<ArrayData>) -> (result: Result<
    Batch,
    ArrowError,
>)
    requires
        all_arrays(columns@),
    ensures
        result is Ok <==> {
            &&& columns.len() != 0
            &&& columns_fit(*schema, columns@, column_cells(columns[0]).len())
        },
        result matches Ok(batch) ==> {
            &&& batch.schema == schema
            &&& same_columns(batch.columns@, columns@)
            &&& all_arrays(batch.columns@)
            &&& batch.row_count == column_cells(columns[0]).len()
        },
{
    let columns = columns.into_iter().map(make_array).collect();
    let (schema, columns, row_count) = RecordBatch::try_new(schema, columns)?.into_parts();
    let columns = columns.iter().map(|column| column.to_data()).collect();
    Ok(Batch { schema, columns, row_count })
}

/// [`RecordBatch::try_new_with_options`], given a row count, accepts exactly the
/// columns that fit the schema with that many rows. The batch then holds the
/// columns unchanged.
#[verifier::external_body]
pub(crate) fn try_new_with_row_count(
    schema: Arc<Schema>,
    columns: Vec<ArrayData>,
    row_count: usize,
) -> (result: Result<Batch, ArrowError>)
    requires
        all_arrays(columns@),
    ensures
        result is Ok <==> columns_fit(*schema, columns@, row_count as nat),
        result matches Ok(batch) ==> {
            &&& batch.schema == schema
            &&& same_columns(batch.columns@, columns@)
            &&& all_arrays(batch.columns@)
            &&& batch.row_count == row_count
        },
{
    let columns = columns.into_iter().map(make_array).collect();
    let options = RecordBatchOptions::new().with_row_count(Some(row_count));
    let batch = RecordBatch::try_new_with_options(schema, columns, &options)?;
    let (schema, columns, row_count) = batch.into_parts();
    let columns = columns.iter().map(|column| column.to_data()).collect();
    Ok(Batch { schema, columns, row_count })
}

/// [`RecordBatch::new_empty`] makes a batch without rows, with a column of the
/// right type under each field.
#[verifier::external_body]
pub(crate) fn new_empty(schema: Arc<Schema>) -> (batch: Batch)
    requires
        fields_have_arrays(*schema),
    ensures
        batch.schema == schema,
        batch.row_count == 0,
        columns_fit(*schema, batch.columns@, 0),
        all_arrays(batch.columns@),
{
    let (schema, columns, row_count) = RecordBatch::new_empty(schema).into_parts();
    let columns = columns.iter().map(|column| column.to_data()).collect();
    Batch { schema, columns, row_count }
}

/// [`RecordBatch::try_from_iter_with_nullable`], given one column, makes a batch of
/// that column alone under a field of its own type. It fails only where the field
/// forbids nulls and the column has one.
#[verifier::external_body]
pub(crate) fn try_from_column(name: &str, column: ArrayData, nullable: bool) -> (result: Result<
    Batch,
    ArrowError,
>)
    requires
        arrayable(column),
    ensures
        result is Ok <==> nullable || !column_cells(column).contains(Cell::Null),
        result matches Ok(batch) ==> {
            &&& schema_fields(*batch.schema).len() == 1
            &&& field_info(*schema_fields(*batch.schema)[0]) == (FieldInfo {
                name: name@,
                column_type: column_type(column),
                nullable,
            })
            &&& schema_metadata(*batch.schema).is_empty()
            &&& same_columns(batch.columns@, seq![column])
            &&& all_arrays(batch.columns@)
            &&& batch.row_count == column_cells(column).len()
        },
{
    let named = vec![(name, make_array(column), nullable)];
    let batch = RecordBatch::try_from_iter_with_nullable(named)?;
    let (schema, columns, row_count) = batch.into_parts();
    let columns = columns.iter().map(|column| column.to_data()).collect();
    Ok(Batch { schema, columns, row_count })
}

/// `filter_record_batch` keeps, in every column, the rows for which the mask says
/// true. It succeeds where the mask has one entry for each row, and the rows of the
/// columns can be copied.
#[verifier::external_body]
pub(crate) fn filter_record_batch(batch: &Batch, mask: Vec<bool>) -> (result: Result<
    Batch,
    ArrowError,
>)
    requires
        batch.wf(),
        batch.copyable(),
        mask.len() == batch.row_count,
    ensures
        result is Ok,
        result matches Ok(filtered) ==> {
            &&& filtered.schema == batch.schema
            &&& filtered.row_count == kept_count(mask@)
            &&& all_arrays(filtered.columns@)
            &&& filtered.columns.len() == batch.columns.len()
            &&& forall|i: int|
                #![trigger filtered.columns@[i]]
                0 <= i < batch.columns.len() ==> {
                    &&& column_type(filtered.columns@[i]) == column_type(batch.columns@[i])
                    &&& column_cells(filtered.columns@[i]) == kept(
                        column_cells(batch.columns@[i]),
                        mask@,
                    )
                }
        },
{
    let columns = batch.columns.iter().map(|column| make_array(column.clone())).collect();
    let options = RecordBatchOptions::new().with_row_count(Some(batch.row_count));
    let input = RecordBatch::try_new_with_options(batch.schema.clone(), columns, &options)?;
    let mask = BooleanArray::from(mask);
    let output = datafusion::arrow::compute::filter_record_batch(&input, &mask)?;
    let (schema, columns, row_count) = output.into_parts();
    let columns = columns.iter().map(|column| column.to_data()).collect();
    Ok(Batch { schema, columns, row_count })
}

/// `concat_batches` puts the batches one after another under the given schema,
/// reading as many of their first columns as the schema has fields. It fails where
/// a column's type is not its field's, or where a field forbids a null that a
/// column has. It panics where a batch has too few columns. It is asked only where
/// there is a batch.
#[verifier::external_body]
pub(crate) fn concat_batches(schema: &Arc<Schema>, batches: &Vec<Batch>) -> (result: Result<
    Batch,
    ArrowError,
>)
    requires
        batches.len() > 0,
        total_rows(batches@) <= usize::MAX,
        forall|k: int|
            0 <= k < batches.len() ==> {
                &&& (#[trigger] batches[k]).wf()
                &&& schema_fields(**schema).len() <= batches[k].columns.len()
            },
        forall|i: int|
            #![trigger column_of_each(batches@, i)]
            0 <= i < schema_fields(**schema).len() && types_agree(column_of_each(batches@, i))
                ==> appendable(column_of_each(batches@, i)),
    ensures
        result is Ok <==> batches_fit(**schema, batches@),
        result matches Ok(batch) ==> {
            &&& batch.schema == *schema
            &&& batch.row_count == total_rows(batches@)
            &&& columns_fit(**schema, batch.columns@, total_rows(batches@))
            &&& all_arrays(batch.columns@)
            &&& forall|i: int|
                0 <= i < batch.columns.len() ==> column_cells(#[trigger] batch.columns@[i])
                    == concatenated(batches@, i)
        },
{
    let mut inputs = Vec::new();
    for batch in batches {
        let columns = batch.columns.iter().map(|column| make_array(column.clone())).collect();
        let options = RecordBatchOptions::new().with_row_count(Some(batch.row_count));
        let schema = batch.schema.clone();
        inputs.push(RecordBatch::try_new_with_options(schema, columns, &options)?);
    }
    let output = datafusion::arrow::compute::concat_batches(schema, &inputs)?;
    let (schema, columns, row_count) = output.into_parts();
    let columns = columns.iter().map(|column| column.to_data()).collect();
    Ok(Batch { schema, columns, row_count })
}

/// [`zip`] takes a row from `truthy` where the mask says true and from `falsy`
/// where it says false or nothing. It fails where the two columns differ in type,
/// or where one of them is not as long as the mask. The new column is no slice, and
/// its rows can be copied again.
#[verifier::external_body]
pub(crate) fn zip_columns(
    mask: &Vec<Option<bool>>,
    truthy: &ArrayData,
    falsy: &ArrayData,
) -> (result: Result<ArrayData, ArrowError>)
    requires
        arrayable(*truthy),
        arrayable(*falsy),
        column_type(*truthy) == column_type(*falsy) ==> appendable(seq![*truthy, *falsy]),
    ensures
        result is Ok <==> {
            &&& column_type(*truthy) == column_type(*falsy)
            &&& column_cells(*truthy).len() == mask.len()
            &&& column_cells(*falsy).len() == mask.len()
        },
        result matches Ok(column) ==> {
            &&& arrayable(column)
            &&& column_type(column) == column_type(*falsy)
            &&& column_cells(column) == blended(mask@, column_cells(*truthy), column_cells(*falsy))
            &&& column_cells(column).len() != 0 ==> rows_fit(seq![column])
        },
{
    let mask = BooleanArray::from(mask.clone());
    let column = zip(&mask, &make_array(truthy.clone()), &make_array(falsy.clone()))?;
    Ok(column.to_data())
}

/// Reading a column as a [`BooleanArray`] works for columns of that type only, and
/// then gives the value of each row.
#[verifier::external_body]
pub(crate) fn boolean_values(column: &ArrayData) -> (values: Option<Vec<Option<bool>>>)
    requires
        arrayable(*column),
    ensures
        values is Some <==> column_type(*column) is Boolean,
        values matches Some(rows) ==> {
            &&& rows.len() == column_cells(*column).len()
            &&& forall|i: int|
                0 <= i < rows.len() ==> column_cells(*column)[i] == (match #[trigger] rows[i] {
                    Some(b) => Cell::Boolean(b),
                    None => Cell::Null,
                })
        },
{
    let array = make_array(column.clone());
    let booleans = array.as_any().downcast_ref::<BooleanArray>()?;
    Some(booleans.iter().collect())
}

/// Reading a column as a [`StringArray`] works for columns of that type only, and
/// then gives the text of each row.
#[verifier::external_body]
pub(crate) fn text_values(column: &ArrayData) -> (values: Option<Vec<Option<String>>>)
    requires
        arrayable(*column),
    ensures
        values is Some <==> column_type(*column) is Utf8,
        values matches Some(rows) ==> {
            &&& rows.len() == column_cells(*column).len()
            &&& forall|i: int|
                0 <= i < rows.len() ==> column_cells(*column)[i] == (match #[trigger] rows[i] {
                    Some(text) => Cell::Text(text@),
                    None => Cell::Null,
                })
        },
{
    let array = make_array(column.clone());
    let strings = array.as_any().downcast_ref::<StringArray>()?;
    Some(strings.iter().map(|text| text.map(|text| text.to_string())).collect())
}

/// `Array::logical_nulls` says for each row whether it holds a value, also where the
/// values of a dictionary, of runs or of a union decide.
#[verifier::external_body]
pub(crate) fn valid_rows(column: &ArrayData) -> (rows: Vec<bool>)
    requires
        arrayable(*column),
    ensures
        rows@ == column_cells(*column).map_values(|cell: Cell| holds_value(cell)),
{
    let array = make_array(column.clone());
    match array.logical_nulls() {
        Some(validity) => validity.iter().collect(),
        None => vec![true; array.len()],
    }
}

/// [`ArrayFormatter`] writes the value of each row; a text is written as it is, also
/// where it stands in a dictionary or in runs. What is written for a row without a
/// value is left unsaid.
#[verifier::external_body]
pub(crate) fn written_rows(column: &ArrayData) -> (result: Result<Vec<String>, ArrowError>)
    requires
        arrayable(*column),
        is_text(column_type(*column)),
    ensures
        result is Ok,
        result matches Ok(rows) ==> {
            &&& rows.len() == column_cells(*column).len()
            &&& forall|i: int|
                0 <= i < rows.len() && holds_value(column_cells(*column)[i]) ==> column_cells(
                    *column,
                )[i] == Cell::Text((#[trigger] rows[i])@)
        },
{
    let array = make_array(column.clone());
    let formatter = ArrayFormatter::try_new(&array, &FormatOptions::default())?;
    Ok((0..array.len()).map(|row| formatter.value(row).to_string()).collect())
}

/// `==` on [`ArrayData`] compares two columns row by row. It is asked only for columns
/// of one type, and not for runs: these are compared by where they end, and slices of
/// them not at all.
#[verifier::external_body]
fn same_values(a: &ArrayData, b: &ArrayData) -> (same: bool)
    requires
        column_type(*a) == column_type(*b),
        arrayable(*a),
        arrayable(*b),
        comparable(column_type(*a)),
        !(column_type(*a) is RunEndEncoded),
    ensures
        same == (column_cells(*a) == column_cells(*b)),
{
    a == b
}

/// The cell of a run, by the cell of its value: no run is null by a bitmap.
pub open spec fn run_cell(value: Cell) -> Cell {
    if value is Null {
        Cell::HiddenNull(0)
    } else {
        value
    }
}

/// [`RunArray::get_physical_indices`] tells for each row which value it has, and
/// [`RunArray::values`] hands out the values. Plain values are null by a bitmap if they
/// are null.
#[verifier::external_body]
fn run_parts(column: &ArrayData) -> (result: Result<(Vec<usize>, ArrayData), ArrowError>)
    requires
        arrayable(*column),
        column_type(*column) is RunEndEncoded,
        comparable(column_type(*column)),
    ensures
        result is Ok,
        result matches Ok(parts) ==> {
            &&& column_type(parts.1) == *column_type(*column)->RunEndEncoded_2
            &&& parts.0.len() == column_cells(*column).len()
            &&& forall|row: int|
                #![trigger parts.0@[row]]
                0 <= row < parts.0.len() ==> {
                    &&& parts.0@[row] < column_cells(parts.1).len()
                    &&& !(column_cells(parts.1)[parts.0@[row] as int] is HiddenNull)
                    &&& column_cells(*column)[row] == run_cell(
                        column_cells(parts.1)[parts.0@[row] as int],
                    )
                }
        },
{
    let array = make_array(column.clone());
    let rows: Vec<i64> = (0..array.len() as i64).collect();
    if let Some(runs) = array.as_run_opt::<Int16Type>() {
        return Ok((runs.get_physical_indices(&rows)?, runs.values().to_data()));
    }
    if let Some(runs) = array.as_run_opt::<Int32Type>() {
        return Ok((runs.get_physical_indices(&rows)?, runs.values().to_data()));
    }
    let runs = array.as_run::<Int64Type>();
    Ok((runs.get_physical_indices(&rows)?, runs.values().to_data()))
}

/// [`ArrayData::slice`], given one row, makes a column of that row alone.
#[verifier::external_body]
fn one_row(column: &ArrayData, row: usize) -> (slice: ArrayData)
    requires
        plain_type(column_type(*column)),
        row < column_cells(*column).len(),
    ensures
        column_type(slice) == column_type(*column),
        column_cells(slice) == seq![column_cells(*column)[row as int]],
{
    column.slice(row, 1)
}

/// Checks whether two columns of runs have the same values, row by row.
fn same_runs(a: &ArrayData, b: &ArrayData) -> (same: bool)
    requires
        column_type(*a) == column_type(*b),
        arrayable(*a),
        arrayable(*b),
        column_type(*a) is RunEndEncoded,
        comparable(column_type(*a)),
    ensures
        same == (column_cells(*a) == column_cells(*b)),
{
    if a.len() != b.len() {
        return false;
    }
    let (a_parts, b_parts) = match (run_parts(a), run_parts(b)) {
        (Ok(a_parts), Ok(b_parts)) => (a_parts, b_parts),
        _ => {
            return false;
        },
    };
    let ghost value_type = *column_type(*a)->RunEndEncoded_2;
    assert(has_array(value_type));
    let ghost a_cells = column_cells(*a);
    let ghost b_cells = column_cells(*b);
    let mut row: usize = 0;
    while row < a_parts.0.len()
        invariant
            row <= a_parts.0.len(),
            a_cells == column_cells(*a),
            b_cells == column_cells(*b),
            a_parts.0.len() == b_parts.0.len(),
            a_parts.0.len() == a_cells.len(),
            b_parts.0.len() == b_cells.len(),
            column_type(a_parts.1) == value_type,
            column_type(b_parts.1) == value_type,
            plain_type(value_type),
            has_array(value_type),
            forall|k: int|
                #![trigger a_parts.0@[k]]
                0 <= k < a_parts.0.len() ==> {
                    &&& a_parts.0@[k] < column_cells(a_parts.1).len()
                    &&& !(column_cells(a_parts.1)[a_parts.0@[k] as int] is HiddenNull)
                    &&& a_cells[k] == run_cell(column_cells(a_parts.1)[a_parts.0@[k] as int])
                },
            forall|k: int|
                #![trigger b_parts.0@[k]]
                0 <= k < b_parts.0.len() ==> {
                    &&& b_parts.0@[k] < column_cells(b_parts.1).len()
                    &&& !(column_cells(b_parts.1)[b_parts.0@[k] as int] is HiddenNull)
                    &&& b_cells[k] == run_cell(column_cells(b_parts.1)[b_parts.0@[k] as int])
                },
            forall|k: int| 0 <= k < row ==> a_cells[k] == b_cells[k],
        decreases a_parts.0.len() - row,
    {
        let a_value = one_row(&a_parts.1, a_parts.0[row]);
        let b_value = one_row(&b_parts.1, b_parts.0[row]);
        assert(a_parts.0@[row as int] < column_cells(a_parts.1).len());
        assert(b_parts.0@[row as int] < column_cells(b_parts.1).len());
        assert(column_cells(a_value)[0] == column_cells(a_parts.1)[a_parts.0@[row as int] as int]);
        assert(column_cells(b_value)[0] == column_cells(b_parts.1)[b_parts.0@[row as int] as int]);
        if !same_values(&a_value, &b_value) {
            proof {
                if column_cells(a_value)[0] == column_cells(b_value)[0] {
                    assert(column_cells(a_value) =~= column_cells(b_value));
                }
                assert(a_cells[row as int] != b_cells[row as int]);
            }
            return false;
        }
        row = row + 1;
    }
    assert(a_cells =~= b_cells);
    true
}

/// Checks whether two columns of one type have the same values, row by row.
pub fn same_rows(a: &ArrayData, b: &ArrayData) -> (same: bool)
    requires
        column_type(*a) == column_type(*b),
        arrayable(*a),
        arrayable(*b),
        comparable(column_type(*a)),
    ensures
        same == (column_cells(*a) == column_cells(*b)),
{
    match parts_of(a.data_type()) {
        TypeParts::RunEndEncoded(_, _) => same_runs(a, b),
        _ => same_values(a, b),
    }
}

/// `StringArray::from` makes a column of the given texts, with a null where there is
/// none. It panics where they take up more bytes than a 32-bit offset can count.
#[verifier::external_body]
pub(crate) fn text_column(values: Vec<Option<String>>) -> (column: ArrayData)
    requires
        utf8_bytes(present(values@)) <= i32::MAX,
    ensures
        column_type(column) is Utf8,
        column_cells(column) == values@.map_values(|value: Option<String>| text_cell(value)),
{
    StringArray::from(values).to_data()
}

/// `UInt64Array::from` makes a column of the given numbers, none of them null.
#[verifier::external_body]
pub(crate) fn number_column(values: Vec<u64>) -> (column: ArrayData)
    ensures
        column_type(column) == uint64(),
        column_cells(column) == values@.map_values(|n: u64| Cell::UInt64(n)),
{
    UInt64Array::from(values).to_data()
}

/// A type of text or bytes that are counted by offsets.
pub open spec fn has_offsets(column_type: ColumnType) -> bool {
    match column_type {
        ColumnType::Utf8 | ColumnType::LargeUtf8 => true,
        ColumnType::Binary | ColumnType::LargeBinary => true,
        _ => false,
    }
}

/// [`ArrayData::get_slice_memory_size`] counts the bytes that the rows of a column
/// need; for text and bytes that is no less than the bytes themselves. It is asked
/// only for columns of these that have rows: it looks at the first and the last
/// offset.
#[verifier::external_body]
pub(crate) fn memory_size(column: &ArrayData) -> (result: Result<usize, ArrowError>)
    requires
        has_offsets(column_type(*column)),
        column_cells(*column).len() > 0,
    ensures
        result is Ok,
        result matches Ok(size) ==> size == column_bytes(*column),
{
    column.get_slice_memory_size()
}

/// [`ArrayData::len`] returns the number of rows.
pub assume_specification[ ArrayData::len ](column: &ArrayData) -> (length: usize)
    ensures
        length == column_cells(*column).len(),
;

/// All columns have the type of the first.
pub open spec fn types_agree(columns: Seq<ArrayData>) -> bool {
    forall|k: int|
        0 <= k < columns.len() ==> column_type(#[trigger] columns[k]) == column_type(columns[0])
}

/// Checks whether every one of the parts is whole.
fn parts_are_whole(parts: &[ArrayData], data_types: &Vec<DataType>) -> (whole_parts: bool)
    ensures
        whole_parts == (parts.len() == data_types.len() && forall|i: int|
            0 <= i < data_types.len() ==> whole(parts@[i], #[trigger] types_of(data_types@)[i])),
    decreases types_of(data_types@), 1int,
{
    if parts.len() != data_types.len() {
        return false;
    }
    let mut i: usize = 0;
    while i < data_types.len()
        invariant
            i <= data_types.len(),
            parts.len() == data_types.len(),
            forall|k: int|
                0 <= k < i ==> whole(parts@[k], #[trigger] types_of(data_types@)[k]),
        decreases data_types.len() - i,
    {
        assert(types_of(data_types@)[i as int] == type_of(data_types@[i as int]));
        assert(decreases_to!(types_of(data_types@) => types_of(data_types@)[i as int]));
        if !is_whole(&parts[i], &data_types[i]) {
            return false;
        }
        i = i + 1;
    }
    true
}

/// Checks that no part of a column that has parts of its own starts at an offset.
fn is_whole(column: &ArrayData, data_type: &DataType) -> (answer: bool)
    ensures
        answer == whole(*column, type_of(*data_type)),
    decreases type_of(*data_type), 0int,
{
    let parts = column.child_data();
    let at_start = column.offset() == 0;
    if let Some(item) = item_of(data_type) {
        return at_start && parts.len() == 1 && is_whole(&parts[0], &item.1);
    }
    match parts_of(data_type) {
        TypeParts::Dictionary(_, value) => parts.len() == 1 && is_whole(&parts[0], &value),
        TypeParts::RunEndEncoded(_, value) => parts.len() == 2 && is_whole(&parts[1], &value),
        TypeParts::Pairs(entry) => at_start && parts.len() == 1 && is_whole(&parts[0], &entry),
        TypeParts::Record(fields) => {
            assert(types_of(fields@).len() == fields.len());
            at_start && parts_are_whole(parts, &fields)
        },
        TypeParts::Union(fields) => {
            assert(types_of(fields@).len() == fields.len());
            at_start && parts_are_whole(parts, &fields)
        },
        TypeParts::Other => true,
    }
}

/// Checks whether Arrow can make an array of a column.
pub fn column_has_array(column: &ArrayData) -> (has: bool)
    ensures
        has == arrayable(*column),
{
    type_has_array(column.data_type()) && is_whole(column, column.data_type())
}

/// Checks whether Arrow can make an array of every column.
pub fn columns_have_arrays(columns: &Vec<ArrayData>) -> (have: bool)
    ensures
        have == all_arrays(columns@),
{
    let mut i: usize = 0;
    while i < columns.len()
        invariant
            i <= columns.len(),
            forall|k: int| 0 <= k < i ==> arrayable(#[trigger] columns@[k]),
        decreases columns.len() - i,
    {
        if !column_has_array(&columns[i]) {
            return false;
        }
        i = i + 1;
    }
    true
}

/// Checks whether Arrow has an array for every field of a schema.
pub fn schema_has_arrays(schema: &Schema) -> (has: bool)
    ensures
        has == fields_have_arrays(*schema),
{
    let fields = fields_of(schema);
    let mut i: usize = 0;
    while i < fields.len()
        invariant
            i <= fields.len(),
            fields@ == schema_fields(*schema),
            forall|k: int|
                0 <= k < i ==> has_array(
                    field_info(*#[trigger] schema_fields(*schema)[k]).column_type,
                ),
        decreases fields.len() - i,
    {
        assert(fields@[i as int] == schema_fields(*schema)[i as int]);
        if !type_has_array(fields[i].data_type()) {
            return false;
        }
        i = i + 1;
    }
    true
}

/// Reads the texts of a column of type `Utf8`, if it is one. Nulls are left out.
pub fn column_texts(column: &ArrayData) -> (strings: Option<Vec<String>>)
    requires
        arrayable(*column),
    ensures
        match strings {
            Some(strings) => {
                &&& column_type(*column) is Utf8
                &&& texts(strings@) == texts_in(column_cells(*column))
            },
            None => !(column_type(*column) is Utf8),
        },
{
    let rows = match text_values(column) {
        None => {
            return None;
        },
        Some(rows) => rows,
    };
    let ghost cells = column_cells(*column);
    let mut strings: Vec<String> = Vec::new();
    let mut i: usize = 0;
    while i < rows.len()
        invariant
            i <= rows.len(),
            cells.len() == rows.len(),
            forall|k: int|
                0 <= k < rows.len() ==> cells[k] == (match #[trigger] rows[k] {
                    Some(text) => Cell::Text(text@),
                    None => Cell::Null,
                }),
            texts(strings@) == texts_in(cells.take(i as int)),
        decreases rows.len() - i,
    {
        assert(cells.take(i + 1).drop_last() =~= cells.take(i as int));
        if let Some(text) = &rows[i] {
            let ghost before = strings@;
            strings.push(text.clone());
            assert(texts(strings@) =~= texts(before).push(text@));
        }
        i = i + 1;
    }
    assert(cells.take(i as int) =~= cells);
    Some(strings)
}

/// Reads the texts of a column, however they are stored. Rows without a value are
/// left out.
pub fn stored_texts(column: &ArrayData) -> (strings: Option<Vec<String>>)
    requires
        arrayable(*column),
    ensures
        match strings {
            Some(strings) => {
                &&& is_text(column_type(*column))
                &&& texts(strings@) == texts_in(column_cells(*column))
            },
            None => !is_text(column_type(*column)),
        },
{
    if !is_text_type(column.data_type()) {
        return None;
    }
    let valid = valid_rows(column);
    let rows = match written_rows(column) {
        Err(_) => {
            return None;
        },
        Ok(rows) => rows,
    };
    let ghost cells = column_cells(*column);
    let mut strings: Vec<String> = Vec::new();
    let mut i: usize = 0;
    while i < rows.len()
        invariant
            i <= rows.len(),
            cells.len() == rows.len(),
            valid@ == cells.map_values(|cell: Cell| holds_value(cell)),
            forall|k: int|
                0 <= k < rows.len() && holds_value(cells[k]) ==> cells[k] == Cell::Text(
                    (#[trigger] rows[k])@,
                ),
            texts(strings@) == texts_in(cells.take(i as int)),
        decreases rows.len() - i,
    {
        assert(cells.take(i + 1).drop_last() =~= cells.take(i as int));
        if valid[i] {
            let ghost before = strings@;
            strings.push(rows[i].clone());
            assert(texts(strings@) =~= texts(before).push(rows[i as int]@));
        }
        i = i + 1;
    }
    assert(cells.take(i as int) =~= cells);
    Some(strings)
}

} // verus!
