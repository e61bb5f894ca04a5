//! What the plans promise: when the two sides of a merge are co-located, what a table asks
//! for, how things are called, and which types are which.

use datafusion::arrow::array::ArrayData;
use datafusion::arrow::datatypes::Schema;
use iceberg::spec::{DataFile, StructType};
use iceberg::table::Table;
use vstd::prelude::*;
use vstd::utf8::is_ascii_chars;

use crate::assignments::{accepted, no_such_column, not_boolean, rebuild_context};
use crate::batch::{Batch, first_named, lemma_first_named};
use crate::capacity::{
    appendable, part_of_each, plain_rows, plainly_appendable, total_buffers, total_bytes,
    total_length,
};
use crate::columns::{
    Cell, arrayable, column_buffers, column_bytes, column_cells, column_fits, column_of_each,
    column_offset, column_parts, column_type, columns_fit, field_info, same_column, same_columns,
    schema_fields, schema_metadata, total_rows, whole,
};
use crate::error::ExecError;
use crate::files::{
    self, BoundInfo, FileFormat, TableInfo, ValueKind, bound_fits, bounds_fit, data_file_info,
    default_partition_type, default_spec_id, described, format_named, keeps_partition,
    partition_fits, partition_kinds, partition_values, qualified_name, struct_fields,
    table_metadata, table_name, table_namespace, unsupported_format, value_fits, value_kept,
    write_checked, write_format, written_type,
};
use crate::merge::{IcebergMergeExec, MergeRun, concat_context};
use crate::merge_rows::{insert_context, update_context};
use crate::merge_write::{IcebergMergeWriteExec, strip_context};
use crate::node::one_child_wanted;
use crate::partition_merge::{
    PartitionField, PartitionFieldInfo, applicable, co_locatable, co_located, column_name,
    covered, default_partition_fields, distributed, infos, is_join_key, under_column,
    unpartitioned,
};
use crate::text::{bool_chars, decimal, joined, texts};
use crate::types::{ColumnType, comparable, has_array, holds_runs, is_text, plain_type};
use crate::update_commit::{
    IcebergUpdateCommitExec, counts, is_count_schema, no_such_partition,
};
use crate::update_laws::label;
use crate::update_write::{FilterTree, IcebergUpdateWriteExec, UpdateMetrics, conjunction};
use crate::write_result::{
    has_text_column, is_result_schema, missing_column, not_text, readable, unreadable,
};

verus! {

/// A transform by which rows can be distributed as their columns are: the bare column, or
/// buckets of it.
pub open spec fn bare_or_bucketed(field: PartitionFieldInfo) -> bool {
    field.transform is Identity || field.transform is Bucket
}

/// Some join key has a name on its target side.
pub open spec fn joins_on(join_keys: Seq<(String, String)>, name: Seq<char>) -> bool {
    exists|k: int| 0 <= k < join_keys.len() && (#[trigger] join_keys[k]).0@ == name
}

/// Co-locating is possible exactly if each partition field, by itself, is named by a join key
/// on the target side and is a bare or bucketed column.
pub proof fn every_partition_field_counts(
    partition_fields: Seq<PartitionFieldInfo>,
    join_keys: Seq<(String, String)>,
)
    ensures
        applicable(partition_fields, join_keys) <==> forall|i: int|
            0 <= i < partition_fields.len() ==> joins_on(
                join_keys,
                (#[trigger] partition_fields[i]).name,
            ) && bare_or_bucketed(partition_fields[i]),
{
    assert forall|i: int| 0 <= i < partition_fields.len() implies co_locatable(
        #[trigger] partition_fields[i],
        join_keys,
    ) == (joins_on(join_keys, partition_fields[i].name) && bare_or_bucketed(
        partition_fields[i],
    )) by {
        lemma_joins_on(join_keys, partition_fields[i].name);
    }
    if applicable(partition_fields, join_keys) {
        assert forall|i: int| 0 <= i < partition_fields.len() implies joins_on(
            join_keys,
            (#[trigger] partition_fields[i]).name,
        ) && bare_or_bucketed(partition_fields[i]) by {
            assert(co_locatable(partition_fields[i], join_keys));
        }
    }
    if forall|i: int|
        0 <= i < partition_fields.len() ==> joins_on(
            join_keys,
            (#[trigger] partition_fields[i]).name,
        ) && bare_or_bucketed(partition_fields[i]) {
        assert forall|i: int| 0 <= i < partition_fields.len() implies co_locatable(
            #[trigger] partition_fields[i],
            join_keys,
        ) by {
            assert(joins_on(join_keys, partition_fields[i].name));
        }
    }
}

/// A column is a join key if a key names it on the target side.
proof fn lemma_joins_on(join_keys: Seq<(String, String)>, name: Seq<char>)
    ensures
        is_join_key(name, join_keys) == joins_on(join_keys, name),
{
    if is_join_key(name, join_keys) {
        let k = choose|k: int| 0 <= k < join_keys.len() && (#[trigger] join_keys[k]).0@ == name;
        assert(join_keys[k].0@ == name);
    }
    if joins_on(join_keys, name) {
        let k = choose|k: int| 0 <= k < join_keys.len() && (#[trigger] join_keys[k]).0@ == name;
        assert(join_keys[k].0@ == name);
    }
}

/// A table has one partition only exactly if no field of its partition spec has a value.
pub proof fn one_live_field_partitions(partition_fields: Seq<PartitionFieldInfo>)
    ensures
        !unpartitioned(partition_fields) <==> exists|i: int|
            0 <= i < partition_fields.len() && !((
            #[trigger] partition_fields[i]).transform is Void),
{
}

/// A merge into a table co-locates the two sides exactly if the table has more than one
/// partition, and if for each of its partition fields the column behind it is in the schema,
/// is named by a join key on the target side, and is taken bare or bucketed.
pub proof fn merges_are_co_located_by_their_columns(
    table: Table,
    join_keys: Seq<(String, String)>,
)
    ensures
        co_located(table, join_keys) <==> ({
            let metadata = table_metadata(table);
            let fields = default_partition_fields(metadata);
            let schema = files::current_schema(metadata);
            &&& exists|i: int|
                0 <= i < fields.len() && !((#[trigger] fields[i]).transform is Void)
            &&& forall|i: int|
                0 <= i < fields.len() ==> {
                    &&& column_name(*schema, (#[trigger] fields[i]).source_id) matches Some(name)
                        && joins_on(join_keys, name)
                    &&& bare_or_bucketed(fields[i])
                }
        }),
{
    let metadata = table_metadata(table);
    let fields = default_partition_fields(metadata);
    let schema = files::current_schema(metadata);
    one_live_field_partitions(fields);
    assert forall|i: int| 0 <= i < fields.len() implies covered(
        #[trigger] fields[i],
        *schema,
        join_keys,
    ) == ((column_name(*schema, fields[i].source_id) matches Some(name) && joins_on(
        join_keys,
        name,
    )) && bare_or_bucketed(fields[i])) by {
        if let Some(name) = column_name(*schema, fields[i].source_id) {
            lemma_joins_on(join_keys, name);
        }
    }
}

/// A partition field goes under the name of its column, and stays what it is otherwise.
pub proof fn only_the_name_changes(
    field: PartitionFieldInfo,
    schema: iceberg::spec::Schema,
)
    ensures
        column_name(schema, field.source_id) is None <==> under_column(field, schema) is None,
        under_column(field, schema) matches Some(renamed) ==> {
            &&& column_name(schema, field.source_id) == Some(renamed.name)
            &&& renamed.source_id == field.source_id
            &&& renamed.field_id == field.field_id
            &&& renamed.transform == field.transform
        },
{
}

/// A plan that is distributed has been through both steps: the partition column was added to
/// it, and what came of that was spread over the given number of partitions.
pub proof fn distributed_plans_went_through_both_steps<
    P,
    E,
    A: Fn(P) -> Result<P, E>,
    R: Fn(P, usize) -> Result<P, E>,
>(plan: P, partitions: usize, add_partition: A, repartition: R, outcome: P) -> (extended: P)
    requires
        distributed(plan, partitions, add_partition, repartition, Ok::<P, E>(outcome)),
    ensures
        add_partition.ensures((plan,), Ok(extended)),
        repartition.ensures((extended, partitions), Ok(outcome)),
{
    choose|extended: P| #[trigger]
        add_partition.ensures((plan,), Ok(extended)) && repartition.ensures(
            (extended, partitions),
            Ok::<P, E>(outcome),
        )
}

/// A plan that cannot be distributed failed in one of the two steps.
pub proof fn one_of_the_steps_failed<
    P,
    E,
    A: Fn(P) -> Result<P, E>,
    R: Fn(P, usize) -> Result<P, E>,
>(plan: P, partitions: usize, add_partition: A, repartition: R, error: E)
    requires
        distributed(plan, partitions, add_partition, repartition, Err::<P, E>(error)),
    ensures
        add_partition.ensures((plan,), Err(error)) || exists|extended: P| #[trigger]
            add_partition.ensures((plan,), Ok(extended)) && repartition.ensures(
                (extended, partitions),
                Err(error),
            ),
{
}

/// Joining strings: nothing gives nothing, one string gives itself, and a further one comes
/// after a separator.
pub proof fn joining_goes_on(parts: Seq<Seq<char>>, further: Seq<char>, separator: Seq<char>)
    ensures
        joined(Seq::empty(), separator) == Seq::<char>::empty(),
        joined(seq![further], separator) == further,
        parts.len() > 0 ==> joined(parts.push(further), separator) == joined(parts, separator)
            + separator + further,
{
    assert(parts.push(further).drop_last() =~= parts);
}

/// A number is written in digits, without a leading zero unless it is zero. One more digit
/// behind makes it ten times as large, and adds the digit.
pub proof fn decimals_are_digits(n: nat, d: nat)
    requires
        d < 10,
    ensures
        decimal(n).len() > 0,
        forall|i: int| 0 <= i < decimal(n).len() ==> '0' <= #[trigger] decimal(n)[i] <= '9',
        n > 0 ==> decimal(n)[0] != '0',
        decimal(0) == seq!['0'],
        n > 0 ==> decimal(n * 10 + d) == decimal(n).push((48 + d) as char),
    decreases n,
{
    if n >= 10 {
        decimals_are_digits(n / 10, 0);
    }
    if n > 0 {
        assert((n * 10 + d) / 10 == n);
        assert((n * 10 + d) % 10 == d);
    }
}

/// Truth values are written as words.
pub proof fn truth_values_are_words()
    ensures
        bool_chars(true) == "true"@,
        bool_chars(false) == "false"@,
{
}

/// A table is called by the levels of its namespace, in order, and by its name.
pub proof fn tables_are_called_by_all_levels(table: Table)
    ensures
        qualified_name(table) == joined(table_namespace(table), "."@) + "."@ + table_name(table),
        table_namespace(table).len() == 1 ==> qualified_name(table) == table_namespace(table)[0]
            + "."@ + table_name(table),
{
}

/// Plans speak of their nodes by the name of the step and that of the table.
pub proof fn lines_name_step_and_table(table: Table, matched: bool, not_matched: bool)
    ensures
        crate::merge_write::node_line(table) == "IcebergMergeWriteExec: table="@ + qualified_name(
            table,
        ),
        crate::update_write::node_line(table) == "IcebergUpdateWriteExec: table="@
            + qualified_name(table),
        crate::update_commit::node_line(table) == "IcebergUpdateCommitExec: table="@
            + qualified_name(table),
        crate::merge::merge_line(matched, not_matched) == "IcebergMergeExec: matched="@
            + bool_chars(matched) + ", not_matched="@ + bool_chars(not_matched),
{
}

/// Two characters are the same letter, the first in either case and the second in lower
/// case, or are the same character.
pub open spec fn same_letter(c: char, lower: char) -> bool {
    if 'A' <= c && c <= 'Z' {
        c as int + 32 == lower as int
    } else {
        c == lower
    }
}

/// A text names a format if it has the characters of the format's name, in either case.
pub open spec fn spells(text: Seq<char>, name: Seq<char>) -> bool {
    &&& text.len() == name.len()
    &&& forall|i: int| 0 <= i < text.len() ==> same_letter(#[trigger] text[i], name[i])
}

/// A text of ASCII characters that names a format spells its name.
proof fn lemma_spells(text: Seq<char>, name: Seq<char>)
    requires
        is_ascii_chars(text),
    ensures
        text.map_values(|c: char| files::ascii_lowercase(c)) == name <==> spells(text, name),
{
    let lower = text.map_values(|c: char| files::ascii_lowercase(c));
    assert forall|i: int| 0 <= i < text.len() == name.len() implies (lower[i]
        == #[trigger] name[i] <==> same_letter(text[i], name[i])) by {
        let c = text[i];
        assert(lower[i] == files::ascii_lowercase(c));
        if 'A' <= c && c <= 'Z' {
            assert(lower[i] as int == c as int + 32);
        }
    }
    if spells(text, name) {
        assert forall|i: int| 0 <= i < text.len() implies lower[i] == name[i] by {
            assert(same_letter(text[i], name[i]));
        }
        assert(lower =~= name);
    }
    if lower == name {
        assert forall|i: int| 0 <= i < text.len() implies same_letter(
            #[trigger] text[i],
            name[i],
        ) by {
            assert(lower[i] == name[i]);
        }
    }
}

/// A text of ASCII characters names Parquet exactly if it spells `parquet`, and so it is with
/// the other formats. Other texts name none.
pub proof fn formats_are_named_in_either_case(text: Seq<char>)
    ensures
        !is_ascii_chars(text) ==> format_named(text) is None,
        is_ascii_chars(text) ==> {
            &&& format_named(text) == Some(FileFormat::Parquet) <==> spells(text, "parquet"@)
            &&& format_named(text) == Some(FileFormat::Avro) <==> spells(text, "avro"@)
            &&& format_named(text) == Some(FileFormat::Orc) <==> spells(text, "orc"@)
            &&& format_named(text) == Some(FileFormat::Puffin) <==> spells(text, "puffin"@)
        },
{
    if is_ascii_chars(text) {
        lemma_spells(text, "parquet"@);
        lemma_spells(text, "avro"@);
        lemma_spells(text, "orc"@);
        lemma_spells(text, "puffin"@);
        reveal_strlit("parquet");
        reveal_strlit("avro");
        reveal_strlit("orc");
        reveal_strlit("puffin");
        assert("parquet"@.len() == 7 && "avro"@.len() == 4 && "orc"@.len() == 3);
        assert("puffin"@.len() == 6);
    }
}

/// Rows can be written to a table exactly if its properties name Parquet as the format of
/// new files. What writing takes is then what the table's metadata says.
pub proof fn only_parquet_is_written(
    table: Table,
    operation: Seq<char>,
    result: Result<TableInfo, ExecError>,
)
    requires
        write_checked(table, operation, result),
    ensures
        result is Ok <==> (write_format(table_metadata(table)) matches Some(name)
            && is_ascii_chars(name) && spells(name, "parquet"@)),
        result matches Ok(info) ==> {
            &&& info.partition_spec_id == default_spec_id(table_metadata(table))
            &&& info.partition_type == default_partition_type(table_metadata(table))
            &&& info.schema == files::current_schema(table_metadata(table))
            &&& info.format_version == files::format_version(table_metadata(table))
        },
        result matches Err(error) ==> match write_format(table_metadata(table)) {
            None => error is Iceberg,
            Some(name) => if format_named(name) is None {
                error is Iceberg
            } else {
                error is FeatureUnsupported
            },
        },
{
    if let Some(name) = write_format(table_metadata(table)) {
        formats_are_named_in_either_case(name);
    }
}

/// What reading and writing the files of a table takes is what its metadata says.
pub proof fn tables_are_described_by_their_metadata(table: Table)
    ensures
        described(table).partition_spec_id == default_spec_id(table_metadata(table)),
        described(table).partition_type == default_partition_type(table_metadata(table)),
        described(table).schema == files::current_schema(table_metadata(table)),
        described(table).format_version == files::format_version(table_metadata(table)),
{
}

/// Text is what is stored as text, as keys into text, or as runs of text; nothing else is.
pub proof fn text_is_stored_in_few_ways(column_type: ColumnType)
    ensures
        match column_type {
            ColumnType::Utf8 | ColumnType::LargeUtf8 | ColumnType::Utf8View => is_text(column_type),
            ColumnType::Dictionary(_, value) => is_text(column_type) == is_text(*value),
            ColumnType::RunEndEncoded(_, _, value) => is_text(column_type) == is_text(*value),
            _ => !is_text(column_type),
        },
{
}

/// Columns of all types can be compared but runs inside something else, and runs of values
/// that have parts. Numbers, texts, bytes and truth values have none.
pub proof fn few_columns_cannot_be_compared(column_type: ColumnType)
    ensures
        match column_type {
            ColumnType::RunEndEncoded(_, _, value) => {
                &&& holds_runs(column_type)
                &&& comparable(column_type) == plain_type(*value)
            },
            ColumnType::Dictionary(_, value) => comparable(column_type) == !holds_runs(*value),
            ColumnType::List(_, _, item) => comparable(column_type) == !holds_runs(*item),
            ColumnType::Pairs(_, entry) => comparable(column_type) == !holds_runs(*entry),
            ColumnType::Record(_, fields) => comparable(column_type) == forall|i: int|
                0 <= i < fields.len() ==> !holds_runs(#[trigger] fields[i]),
            ColumnType::Union(_, fields) => comparable(column_type) == forall|i: int|
                0 <= i < fields.len() ==> !holds_runs(#[trigger] fields[i]),
            _ => comparable(column_type) && !holds_runs(column_type),
        },
        match column_type {
            ColumnType::Boolean => plain_type(column_type),
            ColumnType::Integer { .. } | ColumnType::Number(_) => plain_type(column_type),
            ColumnType::Time32(_) | ColumnType::Time64(_) => plain_type(column_type),
            ColumnType::Temporal(_) => plain_type(column_type),
            ColumnType::Utf8 | ColumnType::LargeUtf8 => plain_type(column_type),
            ColumnType::Utf8View | ColumnType::BinaryView => plain_type(column_type),
            ColumnType::Binary | ColumnType::LargeBinary => plain_type(column_type),
            ColumnType::FixedSizeBinary(_) => plain_type(column_type),
            _ => !plain_type(column_type),
        },
{
}

/// Columns stand under a schema exactly if there is one for each field, and each has its
/// field's type, the right number of rows, and no null where the field forbids it.
pub proof fn columns_fit_field_by_field(schema: Schema, columns: Seq<ArrayData>, rows: nat)
    ensures
        columns_fit(schema, columns, rows) <==> {
            &&& schema_fields(schema).len() == columns.len()
            &&& forall|i: int|
                #![trigger columns[i]]
                0 <= i < columns.len() ==> {
                    let field = field_info(*schema_fields(schema)[i]);
                    &&& column_type(columns[i]) == field.column_type
                    &&& column_cells(columns[i]).len() == rows
                    &&& !field.nullable ==> !column_cells(columns[i]).contains(Cell::Null)
                }
        },
{
}

/// Columns agree if they have one type and the same values, and lists of columns if they are
/// of one length and agree place by place.
pub proof fn columns_agree_place_by_place(a: Seq<ArrayData>, b: Seq<ArrayData>)
    ensures
        same_columns(a, b) <==> a.len() == b.len() && forall|i: int|
            #![trigger a[i]]
            #![trigger b[i]]
            0 <= i < a.len() ==> column_type(a[i]) == column_type(b[i]) && column_cells(a[i])
                == column_cells(b[i]),
{
    if same_columns(a, b) {
        assert forall|i: int|
            #![trigger a[i]]
            #![trigger b[i]]
            0 <= i < a.len() implies column_type(a[i]) == column_type(b[i]) && column_cells(a[i])
            == column_cells(b[i]) by {
            assert(same_column(a[i], b[i]));
        }
    }
}

/// A batch has a column for each field, each with one value for each row.
pub proof fn batches_are_rectangular(batch: Batch)
    requires
        batch.wf(),
    ensures
        batch.columns.len() == schema_fields(*batch.schema).len(),
        forall|i: int|
            0 <= i < batch.columns.len() ==> {
                &&& column_cells(#[trigger] batch.columns@[i]).len() == batch.row_count
                &&& column_type(batch.columns@[i]) == field_info(
                    *schema_fields(*batch.schema)[i],
                ).column_type
            },
{
    assert forall|i: int| 0 <= i < batch.columns.len() implies {
        &&& column_cells(#[trigger] batch.columns@[i]).len() == batch.row_count
        &&& column_type(batch.columns@[i]) == field_info(
            *schema_fields(*batch.schema)[i],
        ).column_type
    } by {
        assert(column_fits(batch.field(i), batch.columns@[i], batch.row_count as nat));
    }
}

/// A batch calls its columns by the names of its fields, one for each and in order.
pub proof fn columns_are_called_by_their_fields(batch: Batch)
    ensures
        batch.names().len() == schema_fields(*batch.schema).len(),
        forall|i: int| 0 <= i < batch.names().len() ==> #[trigger] batch.names()[i] == label(
            batch,
            i,
        ),
{
}

/// Rows of two columns of numbers or truth values can always be put together. Rows of two
/// columns of text can, as far as is easy to see, if both together take up no more bytes than
/// an offset can count. Rows of columns of different types are not put together at all.
pub proof fn small_columns_fit_together(a: ArrayData, b: ArrayData)
    ensures
        column_type(a) != column_type(b) ==> plainly_appendable(seq![a, b]),
        column_type(a) == column_type(b) && (column_type(a) is Boolean || column_type(
            a,
        ) is Integer || column_type(a) is Number || column_type(a) is Temporal)
            ==> plainly_appendable(seq![a, b]),
        column_type(a) is Utf8 && column_type(b) is Utf8 ==> (plainly_appendable(seq![a, b])
            <==> needed_bytes(a) + needed_bytes(b) <= i32::MAX),
        column_type(a) is LargeUtf8 && column_type(b) is LargeUtf8 ==> (plainly_appendable(
            seq![a, b],
        ) <==> needed_bytes(a) + needed_bytes(b) <= i64::MAX),
        column_type(a) is Utf8View && column_type(b) is Utf8View ==> (plainly_appendable(
            seq![a, b],
        ) <==> column_buffers(a) + column_buffers(b) <= u32::MAX),
        plainly_appendable(seq![a, b]) ==> appendable(seq![a, b]),
{
    let both = seq![a, b];
    assert(both[0] == a && both[1] == b);
    assert(both.drop_last() =~= seq![a]);
    assert(seq![a].drop_last() =~= Seq::<ArrayData>::empty());
    reveal_with_fuel(total_bytes, 3);
    reveal_with_fuel(total_buffers, 3);
    assert(total_bytes(both) == needed_bytes(a) + needed_bytes(b));
    assert(total_buffers(both) == column_buffers(a) + column_buffers(b));
    if column_type(a) != column_type(b) {
        assert(column_type(both[1]) != column_type(both[0]));
    } else {
        assert forall|k: int| 0 <= k < both.len() implies column_type(#[trigger] both[k])
            == column_type(a) by {}
    }
}

/// The bytes that a column's rows need. Without rows it needs none.
pub open spec fn needed_bytes(column: ArrayData) -> nat {
    if column_cells(column).len() == 0 {
        0
    } else {
        column_bytes(column)
    }
}

/// One more batch can be counted exactly if no count overflows.
pub proof fn counts_have_room(metrics: UpdateMetrics, rows: nat)
    ensures
        metrics.can_count(rows) <==> metrics.total_batches + 1 <= u64::MAX
            && metrics.total_rows_scanned + rows <= u64::MAX,
{
}

/// Columns of numbers or truth values can be put together however many there are. Columns of
/// text can if all together take up no more bytes than an offset can count.
pub proof fn many_columns_fit_together(columns: Seq<ArrayData>)
    requires
        columns.len() > 0,
        forall|k: int|
            0 <= k < columns.len() ==> column_type(#[trigger] columns[k]) == column_type(
                columns[0],
            ),
    ensures
        match column_type(columns[0]) {
            ColumnType::Boolean => plainly_appendable(columns),
            ColumnType::Integer { .. } | ColumnType::Number(_) => plainly_appendable(columns),
            ColumnType::Temporal(_) => plainly_appendable(columns),
            ColumnType::Utf8 => plainly_appendable(columns) <==> total_bytes(columns) <= i32::MAX,
            ColumnType::LargeUtf8 => plainly_appendable(columns) <==> total_bytes(columns)
                <= i64::MAX,
            _ => true,
        },
{
}

/// Counting the bytes of columns: no column needs none, and a further column adds its own.
pub proof fn column_bytes_add_up(columns: Seq<ArrayData>, further: ArrayData)
    ensures
        total_bytes(Seq::empty()) == 0,
        total_bytes(columns.push(further)) == total_bytes(columns) + needed_bytes(further),
{
    assert(columns.push(further).drop_last() =~= columns);
}

/// An assignment that checks sizes goes through exactly if it would without the check, and if
/// it is easy to see that the new values fit beside those of each column of the name.
pub proof fn checked_assignments_look_at_each_column(
    batch: Batch,
    mask: Seq<Option<bool>>,
    name: Seq<char>,
    value: ArrayData,
)
    requires
        batch.wf(),
    ensures
        accepted(batch, mask, name, value, true) <==> accepted(batch, mask, name, value, false)
            && forall|i: int|
            0 <= i < batch.columns.len() && label(batch, i) == name ==> plainly_appendable(
                seq![value, #[trigger] batch.columns@[i]],
            ),
{
    assert(batch.names().len() == batch.columns.len());
    assert forall|i: int| 0 <= i < batch.columns.len() implies batch.names()[i]
        == #[trigger] label(batch, i) by {}
    if accepted(batch, mask, name, value, true) {
        assert forall|i: int|
            0 <= i < batch.columns.len() && label(batch, i) == name implies plainly_appendable(
            seq![value, #[trigger] batch.columns@[i]],
        ) by {
            assert(batch.names()[i] == label(batch, i));
        }
    }
    if forall|i: int|
        0 <= i < batch.columns.len() && label(batch, i) == name ==> plainly_appendable(
            seq![value, #[trigger] batch.columns@[i]],
        ) {
        assert forall|i: int|
            0 <= i < batch.columns.len() && batch.names()[i] == name implies plainly_appendable(
            seq![value, #[trigger] batch.columns@[i]],
        ) by {
            assert(batch.names()[i] == label(batch, i));
        }
    }
}

/// It is easy to see that the merged rows can be put together exactly if they can be counted,
/// if each batch that was kept has a column for each field, and if it is easy to see of the
/// columns under each field.
pub proof fn merges_finish_field_by_field<E>(run: MergeRun<E>)
    ensures
        run.result_batches.len() == 0 ==> (run.plainly_can_finish() <==> forall|i: int|
            0 <= i < schema_fields(*run.schema).len() ==> has_array(
                field_info(*#[trigger] schema_fields(*run.schema)[i]).column_type,
            )),
        run.result_batches.len() > 0 ==> (run.plainly_can_finish() <==> {
            &&& total_rows(run.result_batches@) <= usize::MAX
            &&& forall|k: int|
                0 <= k < run.result_batches.len() ==> (
                #[trigger] run.result_batches[k]).columns.len() >= schema_fields(
                    *run.schema,
                ).len()
            &&& forall|i: int|
                0 <= i < schema_fields(*run.schema).len() ==> plainly_appendable(
                    #[trigger] column_of_each(run.result_batches@, i),
                )
        }),
        forall|i: int|
            (#[trigger] column_of_each(run.result_batches@, i)).len() == run.result_batches.len(),
        forall|i: int, k: int|
            0 <= k < run.result_batches.len() ==> #[trigger] column_of_each(
                run.result_batches@,
                i,
            )[k] == run.result_batches@[k].columns@[i],
{
}

/// It is easy to see that the rows of a batch can be copied exactly if it is of each of its
/// columns.
pub proof fn batches_are_copied_column_by_column(batch: Batch)
    ensures
        batch.plainly_copyable() <==> forall|i: int|
            0 <= i < batch.columns.len() ==> plainly_appendable(seq![#[trigger] batch.columns@[i]]),
{
}

/// Arrow has an array for a type without parts, unless it is one of times that its width has
/// no room for. It has one for a type with parts if it has one for each part.
pub proof fn most_types_have_arrays(column_type: ColumnType)
    ensures
        match column_type {
            ColumnType::Time32(unit) => has_array(column_type) == (unit is Second
                || unit is Millisecond),
            ColumnType::Time64(unit) => has_array(column_type) == (unit is Microsecond
                || unit is Nanosecond),
            ColumnType::Dictionary(key, value) => has_array(column_type) == (*key is Integer
                && has_array(*value)),
            ColumnType::RunEndEncoded(_, end, value) => has_array(column_type) == ((
            *end matches ColumnType::Integer { signed, bits } && signed && bits != 8) && has_array(
                *value,
            )),
            ColumnType::List(_, _, item) => has_array(column_type) == has_array(*item),
            ColumnType::Pairs(_, entry) => has_array(column_type) == ((
            *entry matches ColumnType::Record(_, fields) && fields.len() == 2) && has_array(
                *entry,
            )),
            ColumnType::Record(_, fields) => has_array(column_type) == forall|i: int|
                0 <= i < fields.len() ==> has_array(#[trigger] fields[i]),
            ColumnType::Union(_, fields) => has_array(column_type) == (fields.len() > 0 && forall|
                i: int,
            |
                0 <= i < fields.len() ==> has_array(#[trigger] fields[i])),
            _ => has_array(column_type),
        },
{
}

/// The write step of a merge works in as many partitions as its input has, and hands on its
/// rows at the end.
pub proof fn merge_writes_follow_their_input<P>(node: IcebergMergeWriteExec<P>)
    requires
        node.wf(),
    ensures
        is_result_schema(*node.result_schema),
        node.plan_properties.partition_count == node.input.partition_count,
        node.plan_properties.emission is Final,
        node.plan_properties.boundedness is Bounded,
{
}

/// The write step of an update hands on its reports at the end, in as many partitions as its
/// input has.
pub proof fn update_writes_follow_their_input<P, F, E>(node: IcebergUpdateWriteExec<P, F, E>)
    requires
        node.wf(),
    ensures
        is_result_schema(*node.result_schema),
        node.plan_properties.schema == node.result_schema,
        node.plan_properties.partition_count == node.input.partition_count,
        node.plan_properties.emission is Final,
        node.plan_properties.boundedness is Bounded,
        node.assigned_columns().len() == node.assignments.len(),
        forall|i: int|
            0 <= i < node.assignments.len() ==> #[trigger] node.assigned_columns()[i]
                == node.assignments@[i].0@,
{
}

/// The commit step of an update hands on a count at the end, in one partition.
pub proof fn update_commits_hand_on_a_count<P, C>(node: IcebergUpdateCommitExec<P, C>)
    requires
        node.wf(),
    ensures
        is_count_schema(*node.count_schema),
        node.plan_properties.schema == node.count_schema,
        node.plan_properties.partition_count == 1,
        node.plan_properties.emission is Final,
        node.plan_properties.boundedness is Bounded,
{
}

/// A merge hands on its rows at the end, in one partition and under its schema.
pub proof fn merges_hand_on_their_rows<P, E>(node: IcebergMergeExec<P, E>)
    requires
        node.wf(),
    ensures
        node.plan_properties.schema == node.schema,
        node.plan_properties.partition_count == 1,
        node.plan_properties.emission is Final,
        node.plan_properties.boundedness is Bounded,
{
}

/// Reports have two columns of text that may hold nulls, and counts have one column of a
/// number that may not. Neither has metadata.
pub proof fn results_have_fixed_columns(report: Schema, count: Schema)
    requires
        is_result_schema(report),
        is_count_schema(count),
    ensures
        schema_fields(report).len() == 2,
        field_info(*schema_fields(report)[0]).name == "data_files"@,
        field_info(*schema_fields(report)[1]).name == "deleted_files"@,
        field_info(*schema_fields(report)[0]).column_type is Utf8,
        field_info(*schema_fields(report)[1]).column_type is Utf8,
        field_info(*schema_fields(report)[0]).nullable,
        field_info(*schema_fields(report)[1]).nullable,
        schema_metadata(report).is_empty(),
        schema_fields(count).len() == 1,
        field_info(*schema_fields(count)[0]).name == "count"@,
        field_info(*schema_fields(count)[0]).column_type == (ColumnType::Integer {
            signed: false,
            bits: 64,
        }),
        !field_info(*schema_fields(count)[0]).nullable,
        schema_metadata(count).is_empty(),
{
}

/// A count is one row with one number.
pub proof fn counts_are_one_number(batch: Batch, count: u64)
    requires
        counts(batch, count),
    ensures
        batch.row_count == 1,
        batch.columns.len() == 1,
        label(batch, 0) == "count"@,
        column_cells(batch.columns@[0]).len() == 1,
        column_cells(batch.columns@[0])[0] == Cell::UInt64(count),
{
}

/// Partition fields are read one by one, each with all that it says.
pub proof fn partition_fields_are_read_one_by_one(partition_fields: Seq<PartitionField>)
    ensures
        infos(partition_fields).len() == partition_fields.len(),
        forall|i: int|
            #![trigger infos(partition_fields)[i]]
            0 <= i < partition_fields.len() ==> {
                &&& infos(partition_fields)[i].source_id == partition_fields[i].source_id
                &&& infos(partition_fields)[i].field_id == partition_fields[i].field_id
                &&& infos(partition_fields)[i].name == partition_fields[i].name@
                &&& infos(partition_fields)[i].transform == partition_fields[i].transform
            },
{
}

/// Strings are read one by one, each with all its characters.
pub proof fn strings_are_read_one_by_one(strings: Seq<String>)
    ensures
        texts(strings).len() == strings.len(),
        forall|i: int| 0 <= i < strings.len() ==> #[trigger] texts(strings)[i] == strings[i]@,
{
}

/// The filters in a tree, from left to right.
pub open spec fn leaves<'a, F>(tree: FilterTree<'a, F>) -> Seq<F>
    decreases tree,
{
    match tree {
        FilterTree::Filter(filter) => seq![*filter],
        FilterTree::And(left, right) => leaves(*left) + leaves(*right),
    }
}

/// Joined filters are all there, once each and in order. Whatever comes to the right of
/// others is a single filter.
pub proof fn filters_are_joined_in_order<'a, F>(filters: Seq<F>)
    requires
        filters.len() > 0,
    ensures
        leaves(conjunction(filters)) == filters,
        conjunction(filters) matches FilterTree::And(_, right) ==> *right is Filter,
    decreases filters.len(),
{
    if filters.len() > 1 {
        filters_are_joined_in_order(filters.drop_last());
        assert(leaves(FilterTree::Filter(&filters.last())) =~= seq![filters.last()]);
        assert(filters.drop_last() + seq![filters.last()] =~= filters);
    } else {
        assert(seq![filters[0]] =~= filters);
    }
}

/// Refusals say what is wrong, and of what.
pub proof fn refusals_say_what_is_wrong(name: Seq<char>, provided: nat)
    ensures
        no_such_column(name) == "Column "@ + name + " not found in batch"@,
        missing_column(name) == "Expected '"@ + name + "' column in UPDATE write batch"@,
        not_text(name) == "Expected '"@ + name + "' column to be StringArray"@,
        one_child_wanted(name, provided) == name + " expects exactly one child, but provided "@
            + decimal(provided),
        no_such_partition(provided)
            == "IcebergUpdateCommitExec only has one partition, but got partition "@ + decimal(
            provided,
        ),
        not_boolean() == "WHERE predicate did not evaluate to boolean"@,
        rebuild_context() == "Failed to apply UPDATE assignments"@,
        strip_context() == "Failed to create batch without _file column"@,
        concat_context() == "Failed to concatenate merge result batches"@,
        update_context() == "Failed to apply MERGE UPDATE assignments"@,
        insert_context() == "Failed to apply MERGE INSERT expressions"@,
{
}

/// A format that cannot be written is refused by its name and the name of the operation.
pub proof fn formats_are_refused_by_name(format: FileFormat, operation: Seq<char>)
    ensures
        unsupported_format(format, operation) == "File format "@ + (match format {
            FileFormat::Avro => "avro"@,
            FileFormat::Orc => "orc"@,
            FileFormat::Parquet => "parquet"@,
            FileFormat::Puffin => "puffin"@,
        }) + " is not supported for "@ + operation + " yet!"@,
{
}

/// A column of a report cannot be read exactly if it is not there as a column of text, and the
/// error says which of the two it is.
pub proof fn unreadable_columns_are_told_apart(batch: Batch, name: Seq<char>, error: ExecError)
    requires
        batch.wf(),
        unreadable(batch, name, error),
    ensures
        !has_text_column(batch, name),
        error matches ExecError::Internal(message) && message@ == (if exists|i: int|
            0 <= i < batch.columns.len() && #[trigger] label(batch, i) == name {
            not_text(name)
        } else {
            missing_column(name)
        }),
{
    lemma_first_named(batch.names(), name);
    assert(batch.names().len() == batch.columns.len());
    assert forall|i: int| 0 <= i < batch.columns.len() implies #[trigger] label(batch, i)
        == batch.names()[i] by {}
    match first_named(batch.names(), name) {
        Some(i) => {
            assert(label(batch, i) == name);
        },
        None => {
            if exists|i: int| 0 <= i < batch.columns.len() && #[trigger] label(batch, i) == name {
                let i = choose|i: int|
                    0 <= i < batch.columns.len() && #[trigger] label(batch, i) == name;
                assert(batch.names().contains(name));
            }
        },
    }
}

/// A report can be read exactly if it has both columns of text.
pub proof fn both_columns_are_wanted(batch: Batch)
    ensures
        readable(batch) <==> has_text_column(batch, "data_files"@) && has_text_column(
            batch,
            "deleted_files"@,
        ),
{
}

/// The part at a place of each column.
pub open spec fn parts_at(columns: Seq<ArrayData>, i: int) -> Seq<ArrayData> {
    Seq::new(columns.len(), |k: int| column_parts(columns[k])[i])
}

/// Each column has so many parts.
pub open spec fn all_have_parts(columns: Seq<ArrayData>, count: nat) -> bool {
    forall|k: int| 0 <= k < columns.len() ==> column_parts(#[trigger] columns[k]).len() == count
}

/// Columns with parts can be put together, as far as is easy to see, if their parts can: the
/// items of lists and of maps, which must not be too many for an offset; the members of
/// structs; and the values of keys, which must not be too many for a key. Keys must not be
/// null, and may not stand inside anything but other keys.
pub proof fn nested_columns_fit_part_by_part(columns: Seq<ArrayData>, keyed: bool, t: ColumnType)
    requires
        forall|k: int| 0 <= k < columns.len() ==> column_type(#[trigger] columns[k]) == t,
    ensures
        match t {
            ColumnType::List(kind, _, item) => plain_rows(columns, t, keyed) <==> {
                &&& !(kind is View)
                &&& all_have_parts(columns, 1)
                &&& total_length(parts_at(columns, 0)) <= (if kind is Short {
                    i32::MAX as int
                } else {
                    i64::MAX as int
                })
                &&& plain_rows(parts_at(columns, 0), *item, false)
            },
            ColumnType::Pairs(_, entry) => plain_rows(columns, t, keyed) <==> {
                &&& all_have_parts(columns, 1)
                &&& total_length(parts_at(columns, 0)) <= i32::MAX
                &&& plain_rows(parts_at(columns, 0), *entry, false)
            },
            ColumnType::Record(_, fields) => plain_rows(columns, t, keyed) <==> {
                &&& all_have_parts(columns, fields.len())
                &&& forall|i: int|
                    0 <= i < fields.len() ==> plain_rows(
                        parts_at(columns, i),
                        #[trigger] fields[i],
                        false,
                    )
            },
            ColumnType::Dictionary(key, value) => plain_rows(columns, t, keyed) ==> {
                &&& keyed
                &&& all_have_parts(columns, 1)
                &&& forall|k: int|
                    0 <= k < columns.len() ==> !column_cells(#[trigger] columns[k]).contains(
                        Cell::Null,
                    )
                &&& plain_rows(parts_at(columns, 0), *value, true)
            },
            _ => true,
        },
        keyed ==> (t matches ColumnType::Dictionary(key, value) ==> *key == (ColumnType::Integer {
            signed: true,
            bits: 32,
        }) && all_have_parts(columns, 1) && total_length(parts_at(columns, 0)) <= i32::MAX && (
        forall|k: int|
            0 <= k < columns.len() ==> !column_cells(#[trigger] columns[k]).contains(Cell::Null))
            && plain_rows(parts_at(columns, 0), *value, true) ==> plain_rows(columns, t, keyed)),
{
    assert forall|i: int| #[trigger] part_of_each(columns, i) == parts_at(columns, i) by {
        assert(part_of_each(columns, i) =~= parts_at(columns, i));
    }
    match t {
        ColumnType::Record(_, fields) => {
            assert forall|i: int| 0 <= i < fields.len() implies plain_rows(
                part_of_each(columns, i),
                #[trigger] fields[i],
                false,
            ) == plain_rows(parts_at(columns, i), fields[i], false) by {
                assert(part_of_each(columns, i) == parts_at(columns, i));
            }
        },
        _ => {
            assert(part_of_each(columns, 0) == parts_at(columns, 0));
        },
    }
}

/// Counting the rows of columns: no column has none, and a further column adds its own.
pub proof fn column_rows_add_up(columns: Seq<ArrayData>, further: ArrayData)
    ensures
        total_length(Seq::empty()) == 0,
        total_length(columns.push(further)) == total_length(columns) + column_cells(
            further,
        ).len(),
{
    assert(columns.push(further).drop_last() =~= columns);
}

/// Arrow can make an array of a column without parts if it can of its type. A column with
/// parts must not start at an offset, unless it is one of keys or runs, and each of its parts
/// must be whole in turn.
pub proof fn whole_columns_have_whole_parts(column: ArrayData, t: ColumnType)
    ensures
        arrayable(column) <==> has_array(column_type(column)) && whole(
            column,
            column_type(column),
        ),
        match t {
            ColumnType::Dictionary(_, value) => whole(column, t) <==> column_parts(column).len()
                == 1 && whole(column_parts(column)[0], *value),
            ColumnType::RunEndEncoded(_, _, value) => whole(column, t) <==> column_parts(
                column,
            ).len() == 2 && whole(column_parts(column)[1], *value),
            ColumnType::List(_, _, item) => whole(column, t) <==> column_offset(column) == 0
                && column_parts(column).len() == 1 && whole(column_parts(column)[0], *item),
            ColumnType::Pairs(_, entry) => whole(column, t) <==> column_offset(column) == 0
                && column_parts(column).len() == 1 && whole(column_parts(column)[0], *entry),
            ColumnType::Record(_, fields) => whole(column, t)
                <==> column_offset(column) == 0 && column_parts(column).len() == fields.len()
                && forall|i: int|
                0 <= i < fields.len() ==> whole(column_parts(column)[i], #[trigger] fields[i]),
            ColumnType::Union(_, fields) => whole(column, t)
                <==> column_offset(column) == 0 && column_parts(column).len() == fields.len()
                && forall|i: int|
                0 <= i < fields.len() ==> whole(column_parts(column)[i], #[trigger] fields[i]),
            _ => whole(column, t),
        },
{
}

/// What kinds of partition values are read back from what is written of them: nulls and truth
/// values always, numbers and texts under the types that take them.
pub proof fn values_read_back_by_kind(kind: ValueKind, type_text: Option<Seq<char>>)
    ensures
        value_fits(kind, type_text) <==> match kind {
            ValueKind::Null | ValueKind::Boolean => true,
            ValueKind::Int => type_text == Some("int"@) || type_text == Some("long"@)
                || type_text == Some("date"@),
            ValueKind::Long => type_text == Some("long"@) || type_text == Some("time"@)
                || type_text == Some("timestamp"@) || type_text == Some("timestamptz"@),
            ValueKind::Text => type_text == Some("string"@),
            ValueKind::Other => false,
        },
        value_kept(kind, type_text) <==> value_fits(kind, type_text) && !(kind is Int
            && type_text == Some("long"@)),
{
}

/// What is written of a file can be read back if each of its partition values and each of its
/// bounds can.
pub proof fn files_read_back_part_by_part(file: DataFile, table: TableInfo)
    ensures
        table.can_read_back(file) <==> ({
            let values = partition_values(data_file_info(file).partition);
            let fields = struct_fields(table.partition_type);
            &&& forall|i: int, j: int|
                0 <= i < j < fields.len() ==> (#[trigger] fields[i]).name != (
                #[trigger] fields[j]).name
            &&& forall|i: int|
                0 <= i < values.len() && i < fields.len() ==> value_fits(
                    (#[trigger] values[i]).kind(),
                    fields[i].type_text,
                )
            &&& forall|bound: BoundInfo|
                data_file_info(file).lower_bounds.contains(bound)
                    || data_file_info(file).upper_bounds.contains(bound)
                    ==> #[trigger] bound_reads_back(bound, *table.schema)
        }),
{
    let info = data_file_info(file);
    let values = partition_values(info.partition);
    let kinds = partition_kinds(info.partition);
    let fields = struct_fields(table.partition_type);
    lemma_bounds_read_back(info.lower_bounds, table);
    lemma_bounds_read_back(info.upper_bounds, table);
    assert forall|i: int| 0 <= i < values.len() implies #[trigger] kinds[i]
        == values[i].kind() by {}
    assert forall|i: int| 0 <= i < values.len() implies (#[trigger] values[i]).kind()
        == kinds[i] by {}
    assert(partition_fits(kinds, fields) <==> {
        &&& forall|i: int, j: int|
            0 <= i < j < fields.len() ==> (#[trigger] fields[i]).name != (
            #[trigger] fields[j]).name
        &&& forall|i: int|
            0 <= i < values.len() && i < fields.len() ==> value_fits(
                (#[trigger] values[i]).kind(),
                fields[i].type_text,
            )
    });
}

/// The partition of a file is the same when it is read back if there is a field for each
/// value, no two of one name, and if each value is kept under its field and may be null there.
pub proof fn partitions_are_kept_value_by_value(file: DataFile, partition_type: StructType)
    ensures
        keeps_partition(file, partition_type) <==> ({
            let values = partition_values(data_file_info(file).partition);
            let fields = struct_fields(partition_type);
            &&& values.len() <= fields.len()
            &&& forall|i: int, j: int|
                0 <= i < j < fields.len() ==> (#[trigger] fields[i]).name != (
                #[trigger] fields[j]).name
            &&& forall|i: int|
                0 <= i < values.len() ==> value_kept(
                    (#[trigger] values[i]).kind(),
                    fields[i].type_text,
                ) && !fields[i].required
        }),
{
    let values = partition_values(data_file_info(file).partition);
    let kinds = partition_kinds(data_file_info(file).partition);
    assert forall|i: int| 0 <= i < values.len() implies #[trigger] kinds[i]
        == values[i].kind() by {}
    assert forall|i: int| 0 <= i < values.len() implies (#[trigger] values[i]).kind()
        == kinds[i] by {}
}

/// Bounds can be read back if each of them can.
proof fn lemma_bounds_read_back(bounds: Set<BoundInfo>, table: TableInfo)
    ensures
        bounds_fit(bounds, *table.schema) <==> forall|bound: BoundInfo|
            bounds.contains(bound) ==> #[trigger] bound_reads_back(bound, *table.schema),
{
    assert forall|bound: BoundInfo| #[trigger] bound_reads_back(bound, *table.schema)
        == bound_fits(bound, *table.schema) by {}
    assert forall|bound: BoundInfo| #[trigger] bounds.contains(bound) && bound_reads_back(
        bound,
        *table.schema,
    ) implies bound_fits(bound, *table.schema) by {}
}

/// A bound is a value of its own type, and that is the type of its column.
pub open spec fn bound_reads_back(bound: BoundInfo, schema: iceberg::spec::Schema) -> bool {
    bound.matched && written_type(schema, bound.id) == Some(bound.type_text)
}

} // verus!
