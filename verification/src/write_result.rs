//! What a write step reports: the files it wrote and the files they replace.
//!
//! The report is a batch with two columns of text, one entry for each file. The
//! commit step reads it back.

use std::sync::Arc;

use datafusion::arrow::datatypes::{Field, Schema};
use vstd::prelude::*;

use crate::batch::{Batch, first_named, lemma_first_named, lemma_same_columns_fit};
use crate::columns::{
    Cell, FieldInfo, ValueType, column_cells, column_fits, column_texts, column_type, columns_fit,
    field_info, new_field, new_schema, present, same_column, schema_fields, schema_metadata,
    text_cell, text_cells, text_column, texts_in, texts_read_back, try_new,
};
use crate::error::ExecError;
use crate::text::{texts, utf8_bytes, utf8_bytes_within};
use crate::types::ColumnType;

verus! {

/// The column with the files that were written.
pub const DATA_FILES_COL_NAME: &'static str = "data_files";

/// The column with the files that they replace.
pub const DELETED_FILES_COL_NAME: &'static str = "deleted_files";

/// A schema of two columns of text: the files that were written, and the files that
/// they replace. Either may be the longer one, so both may hold nulls.
pub open spec fn is_result_schema(schema: Schema) -> bool {
    &&& schema_fields(schema).len() == 2
    &&& field_info(*schema_fields(schema)[0]) == (FieldInfo {
        name: DATA_FILES_COL_NAME@,
        column_type: ColumnType::Utf8,
        nullable: true,
    })
    &&& field_info(*schema_fields(schema)[1]) == (FieldInfo {
        name: DELETED_FILES_COL_NAME@,
        column_type: ColumnType::Utf8,
        nullable: true,
    })
    &&& schema_metadata(schema).is_empty()
}

/// A column of the given texts, with nulls after them to make up the number of rows.
pub open spec fn padded_cells(strings: Seq<Seq<char>>, rows: nat) -> Seq<Cell> {
    Seq::new(rows, |i: int| if i < strings.len() { Cell::Text(strings[i]) } else { Cell::Null })
}

/// The length of the longer of two lists.
pub open spec fn longer(a: Seq<Seq<char>>, b: Seq<Seq<char>>) -> nat {
    if a.len() >= b.len() {
        a.len()
    } else {
        b.len()
    }
}

/// Reading a column that was made up with nulls gives back its texts.
pub proof fn padded_texts_read_back(strings: Seq<Seq<char>>, rows: nat)
    requires
        strings.len() <= rows,
    ensures
        texts_in(padded_cells(strings, rows)) == strings,
    decreases rows,
{
    if strings.len() == rows {
        assert(padded_cells(strings, rows) =~= text_cells(strings));
        texts_read_back(strings);
    } else {
        padded_texts_read_back(strings, (rows - 1) as nat);
        let fewer = (rows - 1) as nat;
        assert(padded_cells(strings, rows).drop_last() =~= padded_cells(strings, fewer));
    }
}

/// A batch that reports the given files.
pub open spec fn reports(
    batch: Batch,
    data_files: Seq<Seq<char>>,
    deleted_files: Seq<Seq<char>>,
) -> bool {
    &&& batch.wf()
    &&& is_result_schema(*batch.schema)
    &&& batch.row_count == longer(data_files, deleted_files)
    &&& column_cells(batch.columns@[0]) == padded_cells(data_files, batch.row_count as nat)
    &&& column_cells(batch.columns@[1]) == padded_cells(deleted_files, batch.row_count as nat)
}

/// Makes the schema of a report.
pub fn result_schema() -> (schema: Arc<Schema>)
    ensures
        is_result_schema(*schema),
{
    let data_files = new_field(DATA_FILES_COL_NAME, ValueType::Utf8, true);
    let deleted_files = new_field(DELETED_FILES_COL_NAME, ValueType::Utf8, true);
    let fields: Vec<Arc<Field>> = vec![Arc::new(data_files), Arc::new(deleted_files)];
    new_schema(fields)
}

/// The two columns of a report have different names.
pub proof fn lemma_result_names(batch: Batch)
    requires
        is_result_schema(*batch.schema),
    ensures
        first_named(batch.names(), DATA_FILES_COL_NAME@) == Some(0int),
        first_named(batch.names(), DELETED_FILES_COL_NAME@) == Some(1int),
{
    reveal_strlit("data_files");
    reveal_strlit("deleted_files");
    let names = batch.names();
    assert(names.len() == 2);
    assert(names[0] == DATA_FILES_COL_NAME@);
    assert(names[1] == DELETED_FILES_COL_NAME@);
    assert(DATA_FILES_COL_NAME@.len() == 10);
    assert(DELETED_FILES_COL_NAME@.len() == 13);
    reveal_with_fuel(first_named, 3);
    assert(names.drop_last().last() == names[0]);
}

/// Makes up a list of texts to a number of rows.
fn pad(strings: Vec<String>, rows: usize) -> (values: Vec<Option<String>>)
    requires
        strings.len() <= rows,
    ensures
        values.len() == rows,
        values@.map_values(|value: Option<String>| text_cell(value)) == padded_cells(
            texts(strings@),
            rows as nat,
        ),
        present(values@) == texts(strings@),
{
    let mut values: Vec<Option<String>> = Vec::new();
    while values.len() < rows
        invariant
            values.len() <= rows,
            strings.len() <= rows,
            forall|k: int|
                0 <= k < values.len() ==> text_cell(#[trigger] values[k]) == (if k
                    < strings.len() {
                    Cell::Text(strings[k]@)
                } else {
                    Cell::Null
                }),
            present(values@) == texts(strings@).take(
                if values.len() <= strings.len() {
                    values.len() as int
                } else {
                    strings.len() as int
                },
            ),
        decreases rows - values.len(),
    {
        let ghost before = values@;
        let i = values.len();
        if i < strings.len() {
            let text = strings[i].clone();
            values.push(Some(text));
            assert(values@.drop_last() =~= before);
            assert(texts(strings@).take(i + 1) =~= texts(strings@).take(i as int).push(text@));
        } else {
            values.push(None);
            assert(values@.drop_last() =~= before);
        }
    }
    assert(values@.map_values(|value: Option<String>| text_cell(value)) =~= padded_cells(
        texts(strings@),
        rows as nat,
    ));
    assert(texts(strings@).take(strings.len() as int) =~= texts(strings@));
    values
}

/// Makes a report of the given files. It has one row for each file of the longer list,
/// and nulls where the other list has no file.
pub fn result_batch(data_files: Vec<String>, deleted_files: Vec<String>, context: &str) -> (result:
    Result<Batch, ExecError>)
    requires
        utf8_bytes(texts(data_files@)) <= i32::MAX,
        utf8_bytes(texts(deleted_files@)) <= i32::MAX,
    ensures
        result is Ok,
        result matches Ok(batch) ==> reports(batch, texts(data_files@), texts(deleted_files@)),
{
    let ghost written = texts(data_files@);
    let ghost replaced = texts(deleted_files@);
    let rows: usize = if data_files.len() >= deleted_files.len() {
        data_files.len()
    } else {
        deleted_files.len()
    };
    let schema = result_schema();
    let first = text_column(pad(data_files, rows));
    let second = text_column(pad(deleted_files, rows));
    let columns = vec![first, second];
    let ghost given = columns@;
    assert(columns_fit(*schema, given, rows as nat));
    match try_new(schema, columns) {
        Ok(batch) => {
            proof {
                lemma_same_columns_fit(batch, given);
                assert(same_column(batch.columns@[0], given[0]));
                assert(same_column(batch.columns@[1], given[1]));
            }
            Ok(batch)
        },
        Err(error) => Err(ExecError::Arrow { error, context: Some(context.to_string()) }),
    }
}

/// The texts in the column of a batch that has the given name, nulls left out.
pub open spec fn texts_under(batch: Batch, name: Seq<char>) -> Seq<Seq<char>> {
    match first_named(batch.names(), name) {
        Some(i) => texts_in(column_cells(batch.columns@[i])),
        None => Seq::empty(),
    }
}

/// Whoever reads a report finds the files that it was made of, in the same order.
pub proof fn reports_read_back(
    batch: Batch,
    data_files: Seq<Seq<char>>,
    deleted_files: Seq<Seq<char>>,
)
    requires
        reports(batch, data_files, deleted_files),
    ensures
        texts_under(batch, DATA_FILES_COL_NAME@) == data_files,
        texts_under(batch, DELETED_FILES_COL_NAME@) == deleted_files,
        readable(batch),
{
    lemma_result_names(batch);
    padded_texts_read_back(data_files, batch.row_count as nat);
    padded_texts_read_back(deleted_files, batch.row_count as nat);
    assert(column_fits(batch.field(0), batch.columns@[0], batch.row_count as nat));
    assert(column_fits(batch.field(1), batch.columns@[1], batch.row_count as nat));
}

/// A batch has a column of text with the given name, and that is the first column
/// with the name.
pub open spec fn has_text_column(batch: Batch, name: Seq<char>) -> bool {
    first_named(batch.names(), name) matches Some(i) && column_type(batch.columns@[i]) is Utf8
}

/// A batch has the two columns of a report.
pub open spec fn readable(batch: Batch) -> bool {
    has_text_column(batch, DATA_FILES_COL_NAME@) && has_text_column(batch, DELETED_FILES_COL_NAME@)
}

/// The refusal of a batch without a column that it should have.
pub open spec fn missing_column(name: Seq<char>) -> Seq<char> {
    "Expected '"@ + name + "' column in UPDATE write batch"@
}

/// The refusal of a batch whose column is not one of text.
pub open spec fn not_text(name: Seq<char>) -> Seq<char> {
    "Expected '"@ + name + "' column to be StringArray"@
}

/// Why a column of a report cannot be read.
pub open spec fn unreadable(batch: Batch, name: Seq<char>, error: ExecError) -> bool {
    &&& !has_text_column(batch, name)
    &&& error matches ExecError::Internal(message) && message@ == (if first_named(
        batch.names(),
        name,
    ) is None {
        missing_column(name)
    } else {
        not_text(name)
    })
}

/// Finds a column of text and reads it.
pub fn read_column(batch: &Batch, name: &str) -> (result: Result<Vec<String>, ExecError>)
    requires
        batch.wf(),
    ensures
        match result {
            Ok(strings) => {
                &&& has_text_column(*batch, name@)
                &&& texts(strings@) == texts_under(*batch, name@)
            },
            Err(error) => unreadable(*batch, name@, error),
        },
{
    proof {
        lemma_first_named(batch.names(), name@);
        assert(batch.names().len() == batch.columns.len());
    }
    match batch.column_index(name) {
        None => {
            let mut message = "Expected '".to_string();
            message.append(name);
            message.append("' column in UPDATE write batch");
            Err(ExecError::Internal(message))
        },
        Some(i) => match column_texts(&batch.columns[i]) {
            None => {
                let mut message = "Expected '".to_string();
                message.append(name);
                message.append("' column to be StringArray");
                Err(ExecError::Internal(message))
            },
            Some(strings) => Ok(strings),
        },
    }
}

/// The refusal of files whose texts are too long for one column.
pub open spec fn too_long() -> Seq<char> {
    "The files take up too much text for one column"@
}

/// Makes a report of the given files, if a column can hold their texts.
pub fn report(data_files: Vec<String>, deleted_files: Vec<String>, context: &str) -> (result:
    Result<Batch, ExecError>)
    ensures
        match result {
            Ok(batch) => {
                &&& utf8_bytes(texts(data_files@)) <= i32::MAX
                &&& utf8_bytes(texts(deleted_files@)) <= i32::MAX
                &&& reports(batch, texts(data_files@), texts(deleted_files@))
            },
            Err(ExecError::Overflow(message)) => {
                &&& utf8_bytes(texts(data_files@)) > i32::MAX || utf8_bytes(texts(deleted_files@))
                    > i32::MAX
                &&& message@ == too_long()
            },
            Err(_) => false,
        },
{
    let limit: usize = 0x7fff_ffff;
    if !utf8_bytes_within(&data_files, limit) || !utf8_bytes_within(&deleted_files, limit) {
        return Err(
            ExecError::Overflow("The files take up too much text for one column".to_string()),
        );
    }
    result_batch(data_files, deleted_files, context)
}

} // verus!
