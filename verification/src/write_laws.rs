//! What the write steps and the commit step promise: which columns and files they hand on,
//! and what whoever reads their reports finds in them.

use iceberg::spec::DataFile;
use vstd::prelude::*;
use vstd::utf8::encode_utf8;

use crate::batch::{Batch, first_named, lemma_first_named};
use crate::columns::{
    Cell, column_cells, column_fits, column_type, kept, same_column, schema_fields,
    schema_metadata, texts_in,
};
use crate::error::ExecError;
use crate::files::{
    FileContent, TableInfo, all_files, data_file_info, data_file_of, data_file_texts, files_of,
    keeps_partition, partition_values, reads_back, stands_for, unwritable, written,
};
use crate::merge_laws::{lists, masks_keep_rows_in_order, places};
use crate::merge_write::{
    FILE_COL_NAME, data_column_mask, further_entries_are_added_once, merge_reported,
    rows_to_write, source_files, strips, with_further,
};
use crate::text::utf8_bytes;
use crate::types::is_text;
use crate::update_commit::{lists_files, record_total, reported_deleted, reported_new};
use crate::update_laws::label;
use crate::update_write::{ScannedFile, records, update_reported};
use crate::write_result::{
    DATA_FILES_COL_NAME, DELETED_FILES_COL_NAME, has_text_column, readable, reports,
    reports_read_back, texts_under,
};

verus! {

/// The rows of a column that hold a text, in order.
pub open spec fn text_places(cells: Seq<Cell>) -> Seq<int> {
    places(cells.map_values(|cell: Cell| cell is Text))
}

/// Reading the texts of a column gives the text of each row that has one, in order.
pub proof fn texts_are_read_in_order(cells: Seq<Cell>)
    ensures
        lists(text_places(cells), cells.len() as int, |row: int| cells[row] is Text),
        texts_in(cells).len() == text_places(cells).len(),
        forall|k: int|
            0 <= k < texts_in(cells).len() ==> Cell::Text(#[trigger] texts_in(cells)[k])
                == cells[text_places(cells)[k]],
    decreases cells.len(),
{
    let mask = cells.map_values(|cell: Cell| cell is Text);
    masks_keep_rows_in_order(cells, mask);
    let list = text_places(cells);
    let told = |place: int| mask[place];
    let wanted = |row: int| cells[row] is Text;
    assert forall|a: int| 0 <= a < list.len() implies 0 <= #[trigger] list[a] < cells.len()
        && wanted(list[a]) by {
        assert(told(list[a]));
    }
    assert forall|row: int| 0 <= row < cells.len() && #[trigger] wanted(
        row,
    ) implies list.contains(row) by {
        assert(told(row));
    }
    if cells.len() > 0 {
        let fewer = cells.drop_last();
        texts_are_read_in_order(fewer);
        assert(mask.drop_last() =~= fewer.map_values(|cell: Cell| cell is Text));
        assert forall|k: int| 0 <= k < texts_in(cells).len() implies Cell::Text(
            #[trigger] texts_in(cells)[k],
        ) == cells[list[k]] by {
            if k < texts_in(fewer).len() {
                assert(texts_in(cells)[k] == texts_in(fewer)[k]);
                assert(list[k] == text_places(fewer)[k]);
            }
        }
    }
}

/// A text is read from a column exactly if one of its rows holds it.
pub proof fn texts_that_are_there_are_read(cells: Seq<Cell>, text: Seq<char>)
    ensures
        texts_in(cells).contains(text) <==> exists|row: int|
            0 <= row < cells.len() && #[trigger] cells[row] == Cell::Text(text),
{
    texts_are_read_in_order(cells);
    let list = text_places(cells);
    let wanted = |row: int| cells[row] is Text;
    if texts_in(cells).contains(text) {
        let k = choose|k: int| 0 <= k < texts_in(cells).len() && texts_in(cells)[k] == text;
        assert(Cell::Text(texts_in(cells)[k]) == cells[list[k]]);
        assert(cells[list[k]] == Cell::Text(text));
    }
    if exists|row: int| 0 <= row < cells.len() && #[trigger] cells[row] == Cell::Text(text) {
        let row = choose|row: int|
            0 <= row < cells.len() && #[trigger] cells[row] == Cell::Text(text);
        assert(wanted(row));
        let k = choose|k: int| 0 <= k < list.len() && list[k] == row;
        assert(Cell::Text(texts_in(cells)[k]) == cells[list[k]]);
        assert(texts_in(cells)[k] == text);
    }
}

/// A column is the first one of a name.
pub open spec fn first_of(batch: Batch, i: int, name: Seq<char>) -> bool {
    &&& 0 <= i < batch.columns.len()
    &&& label(batch, i) == name
    &&& forall|j: int| 0 <= j < i ==> #[trigger] label(batch, j) != name
}

/// Where a batch has a name first, or not at all.
proof fn lemma_first_of(batch: Batch, name: Seq<char>)
    requires
        schema_fields(*batch.schema).len() == batch.columns.len(),
    ensures
        match first_named(batch.names(), name) {
            Some(i) => first_of(batch, i, name),
            None => forall|i: int|
                0 <= i < batch.columns.len() ==> #[trigger] label(batch, i) != name,
        },
        forall|i: int|
            #[trigger] first_of(batch, i, name) ==> first_named(batch.names(), name) == Some(i),
{
    let names = batch.names();
    lemma_first_named(names, name);
    assert(names.len() == batch.columns.len());
    assert forall|i: int| 0 <= i < batch.columns.len() implies #[trigger] label(batch, i)
        == names[i] by {}
    match first_named(names, name) {
        Some(i) => {
            assert(label(batch, i) == name);
            assert forall|j: int| 0 <= j < i implies #[trigger] label(batch, j) != name by {
                assert(names[j] != name);
            }
            assert forall|k: int| #[trigger] first_of(batch, k, name) implies k == i by {
                assert(label(batch, k) == names[k]);
                if i < k {
                    assert(label(batch, i) != name);
                }
            }
        },
        None => {
            assert forall|i: int| 0 <= i < batch.columns.len() implies #[trigger] label(batch, i)
                != name by {
                if names[i] == name {
                    assert(names.contains(name));
                }
            }
        },
    }
}

/// Reading by name takes the first column of that name, and nothing where there is none.
/// It is a column of text exactly if its type says so.
pub proof fn names_find_their_first_column(batch: Batch, name: Seq<char>)
    requires
        batch.wf(),
    ensures
        forall|i: int|
            #[trigger] first_of(batch, i, name) ==> {
                &&& texts_under(batch, name) == texts_in(column_cells(batch.columns@[i]))
                &&& has_text_column(batch, name) <==> column_type(batch.columns@[i]) is Utf8
            },
        (forall|i: int| 0 <= i < batch.columns.len() ==> #[trigger] label(batch, i) != name) ==> {
            &&& texts_under(batch, name).len() == 0
            &&& !has_text_column(batch, name)
        },
{
    lemma_first_of(batch, name);
    lemma_first_named(batch.names(), name);
}

/// The files that a batch of merged rows names are noted, each once, after those that were
/// noted before, and no others are: a file is named by a row of the first column `_file`,
/// if that is a column of text.
pub proof fn files_of_rows_are_noted(noted: Seq<Seq<char>>, batch: Batch, file: Seq<char>)
    requires
        batch.wf(),
    ensures
        with_further(noted, source_files(batch)).contains(file) <==> noted.contains(file) || (
        exists|i: int, row: int|
            {
                &&& #[trigger] first_of(batch, i, "_file"@)
                &&& is_text(column_type(batch.columns@[i]))
                &&& 0 <= row < batch.row_count
                &&& #[trigger] column_cells(batch.columns@[i])[row] == Cell::Text(file)
            }),
        noted.no_duplicates() ==> with_further(noted, source_files(batch)).no_duplicates(),
        noted.is_prefix_of(with_further(noted, source_files(batch))),
{
    further_entries_are_added_once(noted, source_files(batch));
    lemma_first_of(batch, "_file"@);
    let list = with_further(noted, source_files(batch));
    assert(list.contains(file) <==> noted.contains(file) || source_files(batch).contains(file));
    match first_named(batch.names(), FILE_COL_NAME@) {
        Some(i) => {
            let cells = column_cells(batch.columns@[i]);
            assert(column_fits(batch.field(i), batch.columns@[i], batch.row_count as nat));
            texts_that_are_there_are_read(cells, file);
            assert(first_of(batch, i, "_file"@));
            if source_files(batch).contains(file) {
                let row = choose|row: int|
                    0 <= row < cells.len() && #[trigger] cells[row] == Cell::Text(file);
                assert(column_cells(batch.columns@[i])[row] == Cell::Text(file));
            }
        },
        None => {},
    }
}

/// What is written of a batch of merged rows are all its columns but those called `_file`,
/// in order, with their names, their types and all their rows. If there are none of these,
/// it is the batch itself; otherwise what the schema noted beside its fields is left out.
pub proof fn all_other_columns_are_written(batch: Batch, stripped: Batch) -> (list: Seq<int>)
    requires
        batch.wf(),
        rows_to_write(batch, Ok(stripped)),
    ensures
        lists(list, batch.columns.len() as int, |i: int| label(batch, i) != "_file"@),
        stripped.row_count == batch.row_count,
        stripped.columns.len() == list.len(),
        schema_fields(*stripped.schema).len() == list.len(),
        forall|j: int|
            #![trigger stripped.columns@[j]]
            0 <= j < list.len() ==> {
                &&& schema_fields(*stripped.schema)[j] == schema_fields(*batch.schema)[list[j]]
                &&& column_type(stripped.columns@[j]) == column_type(batch.columns@[list[j]])
                &&& column_cells(stripped.columns@[j]) == column_cells(batch.columns@[list[j]])
            },
        if exists|i: int| 0 <= i < batch.columns.len() && #[trigger] label(batch, i) == "_file"@ {
            schema_metadata(*stripped.schema).is_empty()
        } else {
            stripped == batch
        },
{
    let mask = data_column_mask(batch);
    let list = places(mask);
    let told = |place: int| mask[place];
    let wanted = |i: int| label(batch, i) != "_file"@;
    assert(batch.names().len() == batch.columns.len());
    assert forall|i: int| 0 <= i < batch.columns.len() implies #[trigger] mask[i] == (label(
        batch,
        i,
    ) != "_file"@) by {
        assert(batch.names()[i] == label(batch, i));
    }
    masks_keep_rows_in_order(batch.columns@, mask);
    masks_keep_rows_in_order(batch.fields(), mask);
    assert forall|a: int| 0 <= a < list.len() implies 0 <= #[trigger] list[a]
        < batch.columns.len() && wanted(list[a]) by {
        assert(told(list[a]));
        assert(mask[list[a]]);
    }
    assert forall|i: int| 0 <= i < batch.columns.len() && #[trigger] wanted(
        i,
    ) implies list.contains(i) by {
        assert(mask[i]);
        assert(told(i));
    }
    lemma_first_of(batch, "_file"@);
    if let Some(i) = first_named(batch.names(), FILE_COL_NAME@) {
        assert(label(batch, i) == "_file"@);
    }
    if first_named(batch.names(), FILE_COL_NAME@) is None {
        assert forall|i: int| 0 <= i < batch.columns.len() implies #[trigger] mask[i] by {
            assert(label(batch, i) != "_file"@);
        }
        lemma_all_places(mask);
    } else {
        assert(strips(stripped, batch));
        assert forall|j: int| #![trigger stripped.columns@[j]] 0 <= j < list.len() implies {
            &&& schema_fields(*stripped.schema)[j] == schema_fields(*batch.schema)[list[j]]
            &&& column_type(stripped.columns@[j]) == column_type(batch.columns@[list[j]])
            &&& column_cells(stripped.columns@[j]) == column_cells(batch.columns@[list[j]])
        } by {
            assert(same_column(stripped.columns@[j], kept(batch.columns@, mask)[j]));
            assert(kept(batch.columns@, mask)[j] == batch.columns@[list[j]]);
            assert(kept(schema_fields(*batch.schema), mask)[j] == schema_fields(
                *batch.schema,
            )[list[j]]);
        }
    }
    list
}

/// A mask that says true everywhere has every place in its list.
proof fn lemma_all_places(mask: Seq<bool>)
    requires
        forall|i: int| 0 <= i < mask.len() ==> #[trigger] mask[i],
    ensures
        places(mask).len() == mask.len(),
        forall|i: int| 0 <= i < mask.len() ==> #[trigger] places(mask)[i] == i,
    decreases mask.len(),
{
    if mask.len() > 0 {
        let fewer = mask.drop_last();
        assert forall|i: int| 0 <= i < fewer.len() implies #[trigger] fewer[i] by {
            assert(mask[i]);
        }
        lemma_all_places(fewer);
        assert(mask[mask.len() - 1]);
        assert forall|i: int| 0 <= i < mask.len() implies #[trigger] places(mask)[i] == i by {
            if i < fewer.len() {
                assert(places(fewer)[i] == i);
            }
        }
    }
}

/// There is something to write of a batch of merged rows, unless all its columns are called
/// `_file`.
pub proof fn something_is_written(batch: Batch, result: Result<Batch, ExecError>)
    requires
        batch.wf(),
        rows_to_write(batch, result),
    ensures
        result is Err <==> batch.columns.len() > 0 && forall|i: int|
            0 <= i < batch.columns.len() ==> #[trigger] label(batch, i) == "_file"@,
{
    let mask = data_column_mask(batch);
    let list = places(mask);
    let told = |place: int| mask[place];
    assert(batch.names().len() == batch.columns.len());
    assert forall|i: int| 0 <= i < batch.columns.len() implies #[trigger] mask[i] == (label(
        batch,
        i,
    ) != "_file"@) by {
        assert(batch.names()[i] == label(batch, i));
    }
    masks_keep_rows_in_order(mask, mask);
    lemma_first_of(batch, "_file"@);
    if result is Err {
        assert forall|i: int| 0 <= i < batch.columns.len() implies #[trigger] label(batch, i)
            == "_file"@ by {
            if label(batch, i) != "_file"@ {
                assert(mask[i]);
                assert(told(i));
                assert(list.contains(i));
            }
        }
    } else if batch.columns.len() > 0 && forall|i: int|
        0 <= i < batch.columns.len() ==> #[trigger] label(batch, i) == "_file"@ {
        assert(label(batch, 0) == "_file"@);
        assert(told(list[0]));
        assert(mask[list[0]]);
        assert(label(batch, list[0]) == "_file"@);
    }
}

/// What a text that stands for a file is: one that the file may be written as. What is read
/// back from it, if anything, is a file with the same path, content, format, size and number
/// of records, under the table's partition spec.
pub open spec fn tells_of(text: Seq<char>, file: DataFile, table: TableInfo) -> bool {
    &&& data_file_texts(file, table.partition_type, table.format_version).contains(text)
    &&& data_file_of(
        text,
        table.partition_spec_id,
        table.partition_type,
        *table.schema,
    ) matches Some(read) ==> {
        let found = data_file_info(read);
        let info = data_file_info(file);
        &&& found.file_path == info.file_path
        &&& found.content == info.content
        &&& found.file_format == info.file_format
        &&& found.file_size_in_bytes == info.file_size_in_bytes
        &&& found.record_count == info.record_count
        &&& found.partition_spec_id == table.partition_spec_id
        &&& keeps_partition(file, table.partition_type) ==> partition_values(found.partition)
            == partition_values(info.partition)
    }
    &&& reads_back(file, table.partition_type, *table.schema) ==> data_file_of(
        text,
        table.partition_spec_id,
        table.partition_type,
        *table.schema,
    ) is Some
}

/// Files are written one after another, each as a text that tells of it.
pub proof fn written_texts_tell_of_their_files(
    strings: Seq<Seq<char>>,
    files: Seq<DataFile>,
    table: TableInfo,
)
    requires
        written(strings, files, table),
    ensures
        strings.len() == files.len(),
        forall|i: int|
            0 <= i < files.len() ==> tells_of(#[trigger] strings[i], files[i], table),
{
    assert forall|i: int| 0 <= i < files.len() implies tells_of(
        #[trigger] strings[i],
        files[i],
        table,
    ) by {
        assert(stands_for(strings[i], files[i], table));
    }
}

/// A file cannot be written as any text.
pub open spec fn no_text(file: DataFile, table: TableInfo) -> bool {
    forall|text: Seq<char>|
        !#[trigger] data_file_texts(file, table.partition_type, table.format_version).contains(text)
}

/// Files cannot be written exactly if there is one that no text stands for.
pub proof fn one_unwritable_file_is_enough(files: Seq<DataFile>, table: TableInfo)
    ensures
        unwritable(files, table) <==> exists|i: int|
            0 <= i < files.len() && no_text(#[trigger] files[i], table),
{
    if unwritable(files, table) {
        let i = choose|i: int|
            0 <= i < files.len() && table.texts_of(#[trigger] files[i]).is_empty();
        assert(no_text(files[i], table));
    }
    if exists|i: int| 0 <= i < files.len() && no_text(#[trigger] files[i], table) {
        let i = choose|i: int| 0 <= i < files.len() && no_text(#[trigger] files[i], table);
        assert(table.texts_of(files[i]) =~= Set::empty());
    }
}

/// Files are read one after another, each from its own text.
pub proof fn files_are_read_from_their_texts(strings: Seq<Seq<char>>, table: TableInfo)
    ensures
        all_files(strings, table) <==> forall|i: int|
            0 <= i < strings.len() ==> data_file_of(
                #[trigger] strings[i],
                table.partition_spec_id,
                table.partition_type,
                *table.schema,
            ) is Some,
        files_of(strings, table).len() == strings.len(),
        all_files(strings, table) ==> forall|i: int|
            0 <= i < strings.len() ==> data_file_of(
                strings[i],
                table.partition_spec_id,
                table.partition_type,
                *table.schema,
            ) == Some(#[trigger] files_of(strings, table)[i]),
{
    if forall|i: int|
        0 <= i < strings.len() ==> data_file_of(
            #[trigger] strings[i],
            table.partition_spec_id,
            table.partition_type,
            *table.schema,
        ) is Some {
        assert forall|i: int| 0 <= i < strings.len() implies table.file_of(
            #[trigger] strings[i],
        ) is Some by {}
    }
    if all_files(strings, table) {
        assert forall|i: int| 0 <= i < strings.len() implies data_file_of(
            #[trigger] strings[i],
            table.partition_spec_id,
            table.partition_type,
            *table.schema,
        ) is Some by {
            assert(table.file_of(strings[i]) is Some);
        }
        assert forall|i: int| 0 <= i < strings.len() implies data_file_of(
            strings[i],
            table.partition_spec_id,
            table.partition_type,
            *table.schema,
        ) == Some(#[trigger] files_of(strings, table)[i]) by {
            assert(table.file_of(strings[i]) is Some);
        }
    }
}

/// A report lists two sets of texts under two names, each in its order and from the first
/// row on. It has a row for each text of the longer list, and nulls after the shorter one.
pub proof fn reports_list_every_text(
    report: Batch,
    data_files: Seq<Seq<char>>,
    deleted_files: Seq<Seq<char>>,
)
    requires
        reports(report, data_files, deleted_files),
    ensures
        report.columns.len() == 2,
        label(report, 0) == "data_files"@,
        label(report, 1) == "deleted_files"@,
        column_type(report.columns@[0]) is Utf8,
        column_type(report.columns@[1]) is Utf8,
        data_files.len() <= report.row_count,
        deleted_files.len() <= report.row_count,
        report.row_count == data_files.len() || report.row_count == deleted_files.len(),
        column_cells(report.columns@[0]).len() == report.row_count,
        column_cells(report.columns@[1]).len() == report.row_count,
        forall|row: int|
            0 <= row < report.row_count ==> #[trigger] column_cells(report.columns@[0])[row] == (
            if row < data_files.len() {
                Cell::Text(data_files[row])
            } else {
                Cell::Null
            }),
        forall|row: int|
            0 <= row < report.row_count ==> #[trigger] column_cells(report.columns@[1])[row] == (
            if row < deleted_files.len() {
                Cell::Text(deleted_files[row])
            } else {
                Cell::Null
            }),
{
    assert(column_fits(report.field(0), report.columns@[0], report.row_count as nat));
    assert(column_fits(report.field(1), report.columns@[1], report.row_count as nat));
}

/// A merge reports every file: whoever reads its report finds, under `deleted_files`, the
/// paths of all files that rows were read from, in the order in which they were noted, and
/// under `data_files` one text for each file that was written, in order.
pub proof fn merges_report_every_file(
    data_files: Seq<DataFile>,
    deleted_files: Seq<Seq<char>>,
    table: TableInfo,
    report: Batch,
) -> (strings: Seq<Seq<char>>)
    requires
        merge_reported(data_files, deleted_files, table, Ok(report)),
    ensures
        reports(report, strings, deleted_files),
        texts_under(report, "deleted_files"@) == deleted_files,
        texts_under(report, "data_files"@) == strings,
        strings.len() == data_files.len(),
        forall|i: int|
            0 <= i < data_files.len() ==> tells_of(#[trigger] strings[i], data_files[i], table),
        readable(report),
{
    let result: Result<Batch, ExecError> = Ok(report);
    assert(!unwritable(data_files, table));
    let strings = choose|strings: Seq<Seq<char>>|
        {
            &&& #[trigger] written(strings, data_files, table)
            &&& reports(report, strings, deleted_files)
        };
    written_texts_tell_of_their_files(strings, data_files, table);
    reports_read_back(report, strings, deleted_files);
    strings
}

/// A merge fails to report its files only where one of them cannot be written, or where the
/// texts of one column take up more bytes than a column can count.
pub proof fn merges_fail_to_report_only_for_a_reason(
    data_files: Seq<DataFile>,
    deleted_files: Seq<Seq<char>>,
    table: TableInfo,
    error: ExecError,
)
    requires
        merge_reported(data_files, deleted_files, table, Err(error)),
    ensures
        match error {
            ExecError::Iceberg(_) => exists|i: int|
                0 <= i < data_files.len() && no_text(#[trigger] data_files[i], table),
            ExecError::Overflow(_) => utf8_bytes(deleted_files) > i32::MAX || exists|
                strings: Seq<Seq<char>>,
            |
                {
                    &&& #[trigger] utf8_bytes(strings) > i32::MAX
                    &&& strings.len() == data_files.len()
                    &&& forall|i: int|
                        0 <= i < data_files.len() ==> tells_of(
                            #[trigger] strings[i],
                            data_files[i],
                            table,
                        )
                },
            _ => false,
        },
{
    one_unwritable_file_is_enough(data_files, table);
    if !unwritable(data_files, table) {
        let strings = choose|strings: Seq<Seq<char>>|
            {
                &&& #[trigger] written(strings, data_files, table)
                &&& utf8_bytes(strings) > i32::MAX || utf8_bytes(deleted_files) > i32::MAX
                &&& error is Overflow
            };
        written_texts_tell_of_their_files(strings, data_files, table);
    }
}

/// An update reports every file: whoever reads its report finds one text for each file that
/// was written and one for each file that is replaced, in order.
pub proof fn updates_report_every_file(
    data_files: Seq<DataFile>,
    deleted_files: Seq<DataFile>,
    table: TableInfo,
    report: Batch,
) -> (strings: (Seq<Seq<char>>, Seq<Seq<char>>))
    requires
        update_reported(data_files, deleted_files, table, Ok(report)),
    ensures
        reports(report, strings.0, strings.1),
        texts_under(report, "data_files"@) == strings.0,
        texts_under(report, "deleted_files"@) == strings.1,
        strings.0.len() == data_files.len(),
        strings.1.len() == deleted_files.len(),
        forall|i: int|
            0 <= i < data_files.len() ==> tells_of(#[trigger] strings.0[i], data_files[i], table),
        forall|i: int|
            0 <= i < deleted_files.len() ==> tells_of(
                #[trigger] strings.1[i],
                deleted_files[i],
                table,
            ),
        readable(report),
{
    let (new_texts, old_texts) = choose|new_texts: Seq<Seq<char>>, old_texts: Seq<Seq<char>>|
        {
            &&& #[trigger] written(new_texts, data_files, table)
            &&& #[trigger] written(old_texts, deleted_files, table)
            &&& reports(report, new_texts, old_texts)
        };
    written_texts_tell_of_their_files(new_texts, data_files, table);
    written_texts_tell_of_their_files(old_texts, deleted_files, table);
    reports_read_back(report, new_texts, old_texts);
    (new_texts, old_texts)
}

/// An update fails to report its files only where one of them cannot be written, or where
/// the texts of one column take up more bytes than a column can count.
pub proof fn updates_fail_to_report_only_for_a_reason(
    data_files: Seq<DataFile>,
    deleted_files: Seq<DataFile>,
    table: TableInfo,
    error: ExecError,
)
    requires
        update_reported(data_files, deleted_files, table, Err(error)),
    ensures
        match error {
            ExecError::Iceberg(_) => exists|i: int|
                0 <= i < (data_files + deleted_files).len() && no_text(
                    #[trigger] (data_files + deleted_files)[i],
                    table,
                ),
            ExecError::Overflow(_) => exists|files: Seq<DataFile>, strings: Seq<Seq<char>>|
                {
                    &&& files == data_files || files == deleted_files
                    &&& utf8_bytes(strings) > i32::MAX
                    &&& #[trigger] all_told(strings, files, table)
                },
            _ => false,
        },
{
    let all = data_files + deleted_files;
    one_unwritable_file_is_enough(data_files, table);
    one_unwritable_file_is_enough(deleted_files, table);
    if unwritable(data_files, table) {
        let i = choose|i: int|
            0 <= i < data_files.len() && no_text(#[trigger] data_files[i], table);
        assert(all[i] == data_files[i]);
    } else if unwritable(deleted_files, table) {
        let i = choose|i: int|
            0 <= i < deleted_files.len() && no_text(#[trigger] deleted_files[i], table);
        assert(all[data_files.len() + i] == deleted_files[i]);
    } else {
        let (new_texts, old_texts) = choose|new_texts: Seq<Seq<char>>, old_texts: Seq<Seq<char>>|
            {
                &&& #[trigger] written(new_texts, data_files, table)
                &&& #[trigger] written(old_texts, deleted_files, table)
                &&& utf8_bytes(new_texts) > i32::MAX || utf8_bytes(old_texts) > i32::MAX
                &&& error is Overflow
            };
        written_texts_tell_of_their_files(new_texts, data_files, table);
        written_texts_tell_of_their_files(old_texts, deleted_files, table);
        assert(all_told(new_texts, data_files, table));
        assert(all_told(old_texts, deleted_files, table));
    }
}

/// The texts tell of the files, one of each.
pub open spec fn all_told(strings: Seq<Seq<char>>, files: Seq<DataFile>, table: TableInfo) -> bool {
    &&& strings.len() == files.len()
    &&& forall|i: int| 0 <= i < files.len() ==> tells_of(#[trigger] strings[i], files[i], table)
}

/// Counting bytes: no text takes up none, and a further text adds its own.
pub proof fn bytes_add_up(strings: Seq<Seq<char>>, further: Seq<char>)
    ensures
        utf8_bytes(Seq::empty()) == 0,
        utf8_bytes(strings.push(further)) == utf8_bytes(strings) + encode_utf8(further).len(),
{
    assert(strings.push(further).drop_last() =~= strings);
}

/// Counting records: no file holds none, and a further file adds its own.
pub proof fn records_add_up(files: Seq<DataFile>, further: DataFile)
    ensures
        record_total(Seq::empty()) == 0,
        record_total(files.push(further)) == record_total(files) + data_file_info(
            further,
        ).record_count,
{
    assert(files.push(further).drop_last() =~= files);
}

/// The commit step reads a report row by row: a file for each text under `data_files`, and a
/// file for each text under `deleted_files`, each in order and each the one that its text
/// stands for.
pub proof fn reports_are_read_row_by_row(batch: Batch, table: TableInfo, i: int, j: int)
    requires
        batch.wf(),
        first_of(batch, i, "data_files"@),
        first_of(batch, j, "deleted_files"@),
    ensures
        lists_files(batch, table) <==> forall|c: int, row: int|
            (c == i || c == j) && 0 <= row < batch.row_count ==> (#[trigger] column_cells(
                batch.columns@[c],
            )[row] matches Cell::Text(text) ==> data_file_of(
                text,
                table.partition_spec_id,
                table.partition_type,
                *table.schema,
            ) is Some),
        ({
            let cells = column_cells(batch.columns@[i]);
            let found = reported_new(batch, table);
            &&& found.len() == text_places(cells).len()
            &&& lists_files(batch, table) ==> forall|k: int|
                0 <= k < found.len() ==> data_file_of(
                    cells[text_places(cells)[k]]->Text_0,
                    table.partition_spec_id,
                    table.partition_type,
                    *table.schema,
                ) == Some(#[trigger] found[k])
        }),
        ({
            let cells = column_cells(batch.columns@[j]);
            let found = reported_deleted(batch, table);
            &&& found.len() == text_places(cells).len()
            &&& lists_files(batch, table) ==> forall|k: int|
                0 <= k < found.len() ==> data_file_of(
                    cells[text_places(cells)[k]]->Text_0,
                    table.partition_spec_id,
                    table.partition_type,
                    *table.schema,
                ) == Some(#[trigger] found[k])
        }),
{
    names_find_their_first_column(batch, "data_files"@);
    names_find_their_first_column(batch, "deleted_files"@);
    assert(first_of(batch, i, DATA_FILES_COL_NAME@));
    assert(first_of(batch, j, DELETED_FILES_COL_NAME@));
    lemma_files_in_column(batch, table, i);
    lemma_files_in_column(batch, table, j);
}

/// The files of one column of a report.
proof fn lemma_files_in_column(batch: Batch, table: TableInfo, c: int)
    requires
        batch.wf(),
        0 <= c < batch.columns.len(),
    ensures
        ({
            let cells = column_cells(batch.columns@[c]);
            let strings = texts_in(cells);
            &&& all_files(strings, table) <==> forall|row: int|
                0 <= row < batch.row_count ==> (#[trigger] column_cells(
                    batch.columns@[c],
                )[row] matches Cell::Text(text) ==> data_file_of(
                    text,
                    table.partition_spec_id,
                    table.partition_type,
                    *table.schema,
                ) is Some)
            &&& files_of(strings, table).len() == text_places(cells).len()
            &&& all_files(strings, table) ==> forall|k: int|
                0 <= k < strings.len() ==> data_file_of(
                    cells[text_places(cells)[k]]->Text_0,
                    table.partition_spec_id,
                    table.partition_type,
                    *table.schema,
                ) == Some(#[trigger] files_of(strings, table)[k])
        }),
{
    let cells = column_cells(batch.columns@[c]);
    let strings = texts_in(cells);
    let list = text_places(cells);
    assert(column_fits(batch.field(c), batch.columns@[c], batch.row_count as nat));
    texts_are_read_in_order(cells);
    files_are_read_from_their_texts(strings, table);
    let wanted = |row: int| cells[row] is Text;
    if all_files(strings, table) {
        assert forall|row: int| 0 <= row < batch.row_count implies (#[trigger] column_cells(
            batch.columns@[c],
        )[row] matches Cell::Text(text) ==> data_file_of(
            text,
            table.partition_spec_id,
            table.partition_type,
            *table.schema,
        ) is Some) by {
            if cells[row] is Text {
                assert(wanted(row));
                let k = choose|k: int| 0 <= k < list.len() && list[k] == row;
                assert(Cell::Text(strings[k]) == cells[list[k]]);
                assert(table.file_of(strings[k]) is Some);
            }
        }
        assert forall|k: int| 0 <= k < strings.len() implies data_file_of(
            cells[list[k]]->Text_0,
            table.partition_spec_id,
            table.partition_type,
            *table.schema,
        ) == Some(#[trigger] files_of(strings, table)[k]) by {
            assert(Cell::Text(strings[k]) == cells[list[k]]);
        }
    }
    if forall|row: int|
        0 <= row < batch.row_count ==> (#[trigger] column_cells(
            batch.columns@[c],
        )[row] matches Cell::Text(text) ==> data_file_of(
            text,
            table.partition_spec_id,
            table.partition_type,
            *table.schema,
        ) is Some) {
        assert forall|k: int| 0 <= k < strings.len() implies data_file_of(
            #[trigger] strings[k],
            table.partition_spec_id,
            table.partition_type,
            *table.schema,
        ) is Some by {
            assert(Cell::Text(strings[k]) == cells[list[k]]);
            assert(column_cells(batch.columns@[c])[list[k]] is Text);
        }
    }
}

/// What an update reports is what is committed: as many files on either side and in the same
/// order, each with the same path, content, format, size and number of records.
pub proof fn updates_commit_what_they_report(
    data_files: Seq<DataFile>,
    deleted_files: Seq<DataFile>,
    table: TableInfo,
    report: Batch,
)
    requires
        update_reported(data_files, deleted_files, table, Ok(report)),
        lists_files(report, table),
    ensures
        reported_new(report, table).len() == data_files.len(),
        reported_deleted(report, table).len() == deleted_files.len(),
        forall|i: int|
            0 <= i < data_files.len() ==> {
                let found = data_file_info(#[trigger] reported_new(report, table)[i]);
                let info = data_file_info(data_files[i]);
                &&& found.file_path == info.file_path
                &&& found.content == info.content
                &&& found.file_format == info.file_format
                &&& found.file_size_in_bytes == info.file_size_in_bytes
                &&& found.record_count == info.record_count
            },
        forall|i: int|
            0 <= i < deleted_files.len() ==> {
                let found = data_file_info(#[trigger] reported_deleted(report, table)[i]);
                let info = data_file_info(deleted_files[i]);
                &&& found.file_path == info.file_path
                &&& found.content == info.content
                &&& found.file_format == info.file_format
                &&& found.file_size_in_bytes == info.file_size_in_bytes
                &&& found.record_count == info.record_count
            },
        record_total(reported_new(report, table)) == record_total(data_files),
{
    let strings = updates_report_every_file(data_files, deleted_files, table, report);
    files_are_read_from_their_texts(strings.0, table);
    files_are_read_from_their_texts(strings.1, table);
    assert forall|i: int| 0 <= i < data_files.len() implies tells_of(
        strings.0[i],
        data_files[i],
        table,
    ) && data_file_of(
        strings.0[i],
        table.partition_spec_id,
        table.partition_type,
        *table.schema,
    ) == Some(#[trigger] reported_new(report, table)[i]) by {}
    assert forall|i: int| 0 <= i < deleted_files.len() implies tells_of(
        strings.1[i],
        deleted_files[i],
        table,
    ) && data_file_of(
        strings.1[i],
        table.partition_spec_id,
        table.partition_type,
        *table.schema,
    ) == Some(#[trigger] reported_deleted(report, table)[i]) by {}
    lemma_same_records(reported_new(report, table), data_files);
}

/// Files with the same numbers of records hold as many, all together.
proof fn lemma_same_records(a: Seq<DataFile>, b: Seq<DataFile>)
    requires
        a.len() == b.len(),
        forall|i: int|
            0 <= i < a.len() ==> data_file_info(#[trigger] a[i]).record_count == data_file_info(
                b[i],
            ).record_count,
    ensures
        record_total(a) == record_total(b),
    decreases a.len(),
{
    if a.len() > 0 {
        let n = a.len() - 1;
        assert(data_file_info(a[n]).record_count == data_file_info(b[n]).record_count);
        assert forall|i: int| 0 <= i < a.drop_last().len() implies data_file_info(
            #[trigger] a.drop_last()[i],
        ).record_count == data_file_info(b.drop_last()[i]).record_count by {
            assert(data_file_info(a[i]).record_count == data_file_info(b[i]).record_count);
        }
        lemma_same_records(a.drop_last(), b.drop_last());
    }
}

/// The commit step can read what an update reports, wherever what is written of the files
/// can be read back.
pub proof fn updates_report_what_can_be_read(
    data_files: Seq<DataFile>,
    deleted_files: Seq<DataFile>,
    table: TableInfo,
    report: Batch,
)
    requires
        update_reported(data_files, deleted_files, table, Ok(report)),
        forall|i: int|
            0 <= i < data_files.len() ==> reads_back(
                #[trigger] data_files[i],
                table.partition_type,
                *table.schema,
            ),
        forall|i: int|
            0 <= i < deleted_files.len() ==> reads_back(
                #[trigger] deleted_files[i],
                table.partition_type,
                *table.schema,
            ),
    ensures
        readable(report),
        lists_files(report, table),
{
    let strings = updates_report_every_file(data_files, deleted_files, table, report);
    files_are_read_from_their_texts(strings.0, table);
    files_are_read_from_their_texts(strings.1, table);
    assert forall|i: int| 0 <= i < strings.0.len() implies data_file_of(
        #[trigger] strings.0[i],
        table.partition_spec_id,
        table.partition_type,
        *table.schema,
    ) is Some by {
        assert(tells_of(strings.0[i], data_files[i], table));
        assert(reads_back(data_files[i], table.partition_type, *table.schema));
    }
    assert forall|i: int| 0 <= i < strings.1.len() implies data_file_of(
        #[trigger] strings.1[i],
        table.partition_spec_id,
        table.partition_type,
        *table.schema,
    ) is Some by {
        assert(tells_of(strings.1[i], deleted_files[i], table));
        assert(reads_back(deleted_files[i], table.partition_type, *table.schema));
    }
}

/// A file that is to be replaced is described by what the scan tells of it, each part by
/// itself: the path, the format and the size; the partition, or none if the scan tells none;
/// the number of records, or zero if the scan tells none. It is a file of data, under the
/// given partition spec and without bounds.
pub proof fn replaced_files_are_as_scanned(
    file: DataFile,
    scanned: ScannedFile,
    partition_spec_id: i32,
)
    requires
        records(file, scanned, partition_spec_id),
    ensures
        data_file_info(file).content == FileContent::Data,
        data_file_info(file).file_path == scanned.data_file_path@,
        data_file_info(file).file_format == scanned.data_file_format,
        data_file_info(file).file_size_in_bytes == scanned.file_size_in_bytes,
        data_file_info(file).partition_spec_id == partition_spec_id,
        scanned.partition matches Some(partition) ==> data_file_info(file).partition == partition,
        scanned.partition is None ==> partition_values(data_file_info(file).partition).len() == 0,
        scanned.record_count matches Some(count) ==> data_file_info(file).record_count == count,
        scanned.record_count is None ==> data_file_info(file).record_count == 0,
        data_file_info(file).lower_bounds.is_empty(),
        data_file_info(file).upper_bounds.is_empty(),
{
}

/// The partition of a file that is to be replaced depends on the partition that the scan
/// tells, and on nothing else that it tells; and so it is with the number of records.
pub proof fn scanned_parts_do_not_mix(
    one: DataFile,
    other: DataFile,
    one_scanned: ScannedFile,
    other_scanned: ScannedFile,
    one_spec_id: i32,
    other_spec_id: i32,
)
    requires
        records(one, one_scanned, one_spec_id),
        records(other, other_scanned, other_spec_id),
    ensures
        one_scanned.partition == other_scanned.partition ==> partition_values(
            data_file_info(one).partition,
        ) == partition_values(data_file_info(other).partition),
        one_scanned.record_count == other_scanned.record_count ==> data_file_info(one).record_count
            == data_file_info(other).record_count,
{
    if one_scanned.partition is None && other_scanned.partition is None {
        assert(partition_values(data_file_info(one).partition) =~= partition_values(
            data_file_info(other).partition,
        ));
    }
}

} // verus!
