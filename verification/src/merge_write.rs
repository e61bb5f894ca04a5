//! The write step of MERGE INTO: writing the merged rows to new files, and noting
//! which files they were read from.

use std::sync::Arc;

use datafusion::arrow::array::ArrayData;
use datafusion::arrow::datatypes::{Field, Schema};
use iceberg::spec::DataFile;
use iceberg::table::Table;
use vstd::prelude::*;

use crate::batch::{Batch, first_named, lemma_first_named, lemma_same_columns_fit};
use crate::columns::{
    all_arrays, arrayable, column_cells, column_fits, column_type, columns_fit, field_info,
    fields_of, kept, kept_count, new_schema, same_column, same_columns, schema_fields,
    schema_metadata, schema_text, schema_texts, stored_texts, texts_in, try_new,
};
use crate::error::ExecError;
use crate::files::{
    TableInfo, prepare_write, qualified_name, serialize_data_files, table_text, unwritable,
    write_checked, written,
};
use crate::node::{DisplayFormat, NodeProperties, PlanInput, one_child_wanted, only_child};
use crate::text::{same_text, texts, utf8_bytes};
use crate::types::is_text;
use crate::write_result::{
    is_result_schema, report, reports, result_batch, result_schema, too_long,
};

verus! {

/// The column that tells which file a row was read from.
pub const FILE_COL_NAME: &'static str = "_file";

/// Physical plan node for the write step of MERGE INTO. `P` stands for plans.
///
/// The node reports the files that it wrote and the paths of the files that they
/// replace.
pub struct IcebergMergeWriteExec<P> {
    /// The table that is merged into.
    pub table: Table,
    /// Produces the merged rows.
    pub input: PlanInput<P>,
    /// The schema of the report.
    pub result_schema: Arc<Schema>,
    /// What a planner has to know.
    pub plan_properties: NodeProperties,
}

/// A node in one line, as far as all formats have it.
pub open spec fn node_line(table: Table) -> Seq<char> {
    "IcebergMergeWriteExec: table="@ + qualified_name(table)
}

impl<P> IcebergMergeWriteExec<P> {
    /// The node works in as many partitions as its input has.
    pub open spec fn wf(self) -> bool {
        &&& is_result_schema(*self.result_schema)
        &&& self.plan_properties.partition_count == self.input.partition_count
        &&& self.plan_properties.emission is Final
        &&& self.plan_properties.boundedness is Bounded
    }

    /// Makes the node. What a planner is told of its schema is up to the caller.
    pub fn new(table: Table, input: PlanInput<P>, schema: Arc<Schema>) -> (node: Self)
        ensures
            node.wf(),
            node.table == table,
            node.input == input,
            node.plan_properties.schema == schema,
    {
        let plan_properties = Self::compute_properties(&input, schema);
        IcebergMergeWriteExec {
            table,
            input,
            result_schema: Self::make_result_schema(),
            plan_properties,
        }
    }

    /// The node hands on its rows at the end, in as many partitions as its input has.
    pub fn compute_properties(input: &PlanInput<P>, schema: Arc<Schema>) -> (properties:
        NodeProperties)
        ensures
            properties.schema == schema,
            properties.partition_count == input.partition_count,
            properties.emission is Final,
            properties.boundedness is Bounded,
    {
        NodeProperties::blocking(schema, input.partition_count)
    }

    /// Makes a report of the files that were written and the files that they replace.
    pub fn make_result_batch(data_files: Vec<String>, deleted_files: Vec<String>) -> (result:
        Result<Batch, ExecError>)
        requires
            utf8_bytes(texts(data_files@)) <= i32::MAX,
            utf8_bytes(texts(deleted_files@)) <= i32::MAX,
        ensures
            result is Ok,
            result matches Ok(batch) ==> reports(batch, texts(data_files@), texts(deleted_files@)),
    {
        result_batch(data_files, deleted_files, "Failed to make result batch")
    }

    /// Makes the schema of a report.
    pub fn make_result_schema() -> (schema: Arc<Schema>)
        ensures
            is_result_schema(*schema),
    {
        result_schema()
    }

    /// How a plan speaks of the node.
    pub fn fmt_as(&self, format: DisplayFormat) -> (line: String)
        ensures
            match format {
                DisplayFormat::Default | DisplayFormat::TreeRender => line@ == node_line(
                    self.table,
                ),
                DisplayFormat::Verbose => exists|schema: Seq<char>|
                    {
                        &&& #[trigger] schema_texts(*self.result_schema).contains(schema)
                        &&& line@ == node_line(self.table) + ", result_schema="@ + schema
                    },
            },
    {
        let mut line = "IcebergMergeWriteExec: table=".to_string();
        line.append(table_text(&self.table).as_str());
        if format == DisplayFormat::Verbose {
            line.append(", result_schema=");
            let schema = schema_text(&self.result_schema);
            line.append(schema.as_str());
            assert(schema_texts(*self.result_schema).contains(schema@));
        }
        line
    }

    /// Checks that the merged rows can be written, and says what that takes.
    pub fn prepare(&self) -> (result: Result<TableInfo, ExecError>)
        ensures
            write_checked(self.table, "MERGE"@, result),
    {
        prepare_write(&self.table, "MERGE")
    }

    /// The node's name.
    pub fn name(&self) -> (name: &'static str)
        ensures
            name@ == "IcebergMergeWriteExec"@,
    {
        "IcebergMergeWriteExec"
    }

    /// Spreading the input over more partitions is of no use.
    pub fn benefits_from_input_partitioning(&self) -> (benefits: Vec<bool>)
        ensures
            benefits@ == seq![false],
    {
        vec![false]
    }

    /// The rows stay in the order in which they come.
    pub fn maintains_input_order(&self) -> (maintains: Vec<bool>)
        ensures
            maintains@ == seq![true],
    {
        vec![true]
    }

    /// The plan that the node takes its rows from.
    pub fn children(&self) -> (children: Vec<&P>)
        ensures
            children@ == seq![&self.input.plan],
    {
        vec![&self.input.plan]
    }

    /// The same node over another plan, of which it takes exactly one.
    pub fn with_new_children(self, children: Vec<PlanInput<P>>) -> (result: Result<
        Self,
        ExecError,
    >)
        ensures
            match result {
                Ok(node) => {
                    &&& children@ == seq![node.input]
                    &&& node.wf()
                    &&& node.table == self.table
                    &&& node.plan_properties.schema == self.plan_properties.schema
                },
                Err(ExecError::Internal(message)) => {
                    &&& children.len() != 1
                    &&& message@ == one_child_wanted(
                        "IcebergMergeWriteExec"@,
                        children.len() as nat,
                    )
                },
                Err(_) => false,
            },
    {
        match only_child("IcebergMergeWriteExec", children) {
            Err(error) => Err(error),
            Ok(input) => Ok(Self::new(self.table, input, self.plan_properties.schema)),
        }
    }
}

/// The files that the rows of a batch were read from: what the first column with the
/// name `_file` says, row by row, however its texts are stored. Rows that are from no
/// file are left out. A column of anything but text says nothing.
pub open spec fn source_files(batch: Batch) -> Seq<Seq<char>> {
    match first_named(batch.names(), FILE_COL_NAME@) {
        Some(i) => if is_text(column_type(batch.columns@[i])) {
            texts_in(column_cells(batch.columns@[i]))
        } else {
            Seq::empty()
        },
        None => Seq::empty(),
    }
}

/// A list with those of the further entries that it does not hold yet, each once.
pub open spec fn with_further(list: Seq<Seq<char>>, further: Seq<Seq<char>>) -> Seq<Seq<char>>
    decreases further.len(),
{
    if further.len() == 0 {
        list
    } else {
        let before = with_further(list, further.drop_last());
        if before.contains(further.last()) {
            before
        } else {
            before.push(further.last())
        }
    }
}

/// Adding entries to a list loses none, adds no others and repeats none.
pub proof fn further_entries_are_added_once(list: Seq<Seq<char>>, further: Seq<Seq<char>>)
    ensures
        forall|entry: Seq<char>|
            #[trigger] with_further(list, further).contains(entry) <==> list.contains(entry)
                || further.contains(entry),
        list.no_duplicates() ==> with_further(list, further).no_duplicates(),
        list.is_prefix_of(with_further(list, further)),
    decreases further.len(),
{
    if further.len() > 0 {
        let before = with_further(list, further.drop_last());
        let last = further.last();
        let after = with_further(list, further);
        further_entries_are_added_once(list, further.drop_last());
        assert(further =~= further.drop_last().push(last));
        assert forall|entry: Seq<char>| #[trigger] after.contains(entry) <==> list.contains(entry)
            || further.contains(entry) by {
            assert(further.contains(entry) <==> further.drop_last().contains(entry) || entry
                == last) by {
                if further.drop_last().contains(entry) {
                    let k = choose|k: int|
                        0 <= k < further.drop_last().len() && further.drop_last()[k] == entry;
                    assert(further[k] == entry);
                }
                if entry == last {
                    assert(further[further.len() - 1] == entry);
                }
                if further.contains(entry) && entry != last {
                    let k = choose|k: int| 0 <= k < further.len() && further[k] == entry;
                    assert(further.drop_last()[k] == entry);
                }
            }
            if !before.contains(last) {
                if before.contains(entry) {
                    let k = choose|k: int| 0 <= k < before.len() && before[k] == entry;
                    assert(after[k] == entry);
                }
                if entry == last {
                    assert(after[after.len() - 1] == entry);
                }
                if after.contains(entry) && entry != last {
                    let k = choose|k: int| 0 <= k < after.len() && after[k] == entry;
                    assert(before[k] == entry);
                }
            }
        }
        if list.no_duplicates() && !before.contains(last) {
            assert forall|a: int, b: int| 0 <= a < b < after.len() implies after[a] != after[b] by {
                if b == before.len() {
                    assert(before[a] == after[a]);
                } else {
                    assert(before[a] != before[b]);
                }
            }
        }
    }
}

/// Which columns hold data, and not the file that a row was read from.
pub open spec fn data_column_mask(batch: Batch) -> Seq<bool> {
    batch.names().map_values(|name: Seq<char>| name != FILE_COL_NAME@)
}

/// A batch without the columns that tell which file a row was read from. Its schema
/// has no metadata.
pub open spec fn strips(stripped: Batch, batch: Batch) -> bool {
    let mask = data_column_mask(batch);
    &&& stripped.wf()
    &&& stripped.row_count == batch.row_count
    &&& schema_fields(*stripped.schema) == kept(schema_fields(*batch.schema), mask)
    &&& schema_metadata(*stripped.schema).is_empty()
    &&& same_columns(stripped.columns@, kept(batch.columns@, mask))
}

/// The context of a failure to make a batch without the column of files.
pub open spec fn strip_context() -> Seq<char> {
    "Failed to create batch without _file column"@
}

/// What of a batch is written: all of it if nothing tells which file a row was read
/// from, and otherwise all other columns, of which there has to be one.
pub open spec fn rows_to_write(batch: Batch, result: Result<Batch, ExecError>) -> bool {
    if first_named(batch.names(), FILE_COL_NAME@) is None {
        result == Ok::<Batch, ExecError>(batch)
    } else if kept_count(data_column_mask(batch)) != 0 {
        result matches Ok(stripped) && strips(stripped, batch)
    } else {
        result matches Err(ExecError::Arrow { context: Some(context), .. }) && context@
            == strip_context()
    }
}

/// A column that is kept fits the field that is kept with it.
proof fn lemma_kept_columns_fit(
    batch: Batch,
    mask: Seq<bool>,
    n: int,
    fields: Seq<Arc<Field>>,
    columns: Seq<ArrayData>,
)
    requires
        batch.wf(),
        0 <= n <= batch.columns.len(),
        mask.len() == batch.columns.len(),
        fields == kept(schema_fields(*batch.schema).take(n), mask.take(n)),
        same_columns(columns, kept(batch.columns@.take(n), mask.take(n))),
    ensures
        fields.len() == columns.len() == kept_count(mask.take(n)),
        forall|i: int|
            #![trigger columns[i]]
            0 <= i < columns.len() ==> column_fits(
                field_info(*fields[i]),
                columns[i],
                batch.row_count as nat,
            ),
    decreases n,
{
    if n > 0 {
        let before = batch.fields().take(n - 1);
        assert(schema_fields(*batch.schema).take(n).drop_last() =~= before);
        assert(batch.columns@.take(n).drop_last() =~= batch.columns@.take(n - 1));
        assert(mask.take(n).drop_last() =~= mask.take(n - 1));
        assert(column_fits(batch.field(n - 1), batch.columns@[n - 1], batch.row_count as nat));
        let fewer_columns = kept(batch.columns@.take(n - 1), mask.take(n - 1));
        let fewer_fields = kept(before, mask.take(n - 1));
        lemma_kept_columns_fit(batch, mask, n - 1, fewer_fields, fewer_columns);
        assert forall|i: int| #![trigger columns[i]] 0 <= i < columns.len() implies column_fits(
            field_info(*fields[i]),
            columns[i],
            batch.row_count as nat,
        ) by {
            let source = kept(batch.columns@.take(n), mask.take(n));
            assert(same_column(columns[i], source[i]));
            if i < fewer_columns.len() {
                assert(column_fits(
                    field_info(*fewer_fields[i]),
                    fewer_columns[i],
                    batch.row_count as nat,
                ));
                assert(source[i] == fewer_columns[i]);
                assert(fields[i] == fewer_fields[i]);
            }
        }
    }
}

/// Takes out the columns that tell which file a row was read from.
pub fn strip_file_column(batch: Batch) -> (result: Result<Batch, ExecError>)
    requires
        batch.wf(),
    ensures
        rows_to_write(batch, result),
{
    let names = batch.column_names();
    if batch.column_index(FILE_COL_NAME).is_none() {
        return Ok(batch);
    }
    let all_fields = fields_of(&batch.schema);
    let ghost mask = data_column_mask(batch);
    let mut fields: Vec<Arc<Field>> = Vec::new();
    let mut columns: Vec<ArrayData> = Vec::new();
    let mut i: usize = 0;
    assert(texts(names@).len() == batch.columns.len());
    while i < names.len()
        invariant
            i <= names.len(),
            batch.wf(),
            texts(names@) == batch.names(),
            names.len() == batch.columns.len(),
            all_fields@ == schema_fields(*batch.schema),
            mask == data_column_mask(batch),
            fields@ == kept(all_fields@.take(i as int), mask.take(i as int)),
            same_columns(columns@, kept(batch.columns@.take(i as int), mask.take(i as int))),
            all_arrays(columns@),
        decreases names.len() - i,
    {
        assert(texts(names@)[i as int] == names@[i as int]@);
        assert(all_fields@.take(i + 1).drop_last() =~= all_fields@.take(i as int));
        assert(batch.columns@.take(i + 1).drop_last() =~= batch.columns@.take(i as int));
        assert(mask.take(i + 1).drop_last() =~= mask.take(i as int));
        if !same_text(names[i].as_str(), FILE_COL_NAME) {
            fields.push(all_fields[i].clone());
            assert(arrayable(batch.columns@[i as int]));
            columns.push(batch.columns[i].clone());
        }
        i = i + 1;
    }
    let ghost kept_columns = columns@;
    proof {
        assert(all_fields@.take(i as int) =~= all_fields@);
        assert(batch.columns@.take(i as int) =~= batch.columns@);
        assert(mask.take(i as int) =~= mask);
        lemma_kept_columns_fit(batch, mask, i as int, fields@, columns@);
    }
    let schema = new_schema(fields);
    assert(columns.len() > 0 ==> {
        &&& column_cells(kept_columns[0]).len() == batch.row_count
        &&& columns_fit(*schema, kept_columns, batch.row_count as nat)
    });
    match try_new(schema, columns) {
        Err(error) => {
            let context = Some("Failed to create batch without _file column".to_string());
            Err(ExecError::Arrow { error, context })
        },
        Ok(stripped) => {
            proof {
                lemma_same_columns_fit(stripped, kept_columns);
                assert forall|i: int| 0 <= i < stripped.columns.len() implies same_column(
                    #[trigger] stripped.columns@[i],
                    kept(batch.columns@, mask)[i],
                ) by {
                    assert(same_column(stripped.columns@[i], kept_columns[i]));
                    assert(same_column(kept_columns[i], kept(batch.columns@, mask)[i]));
                }
            }
            Ok(stripped)
        },
    }
}

/// The write step of a merge at work.
pub struct MergeWriteRun {
    /// The files that rows were read from, each once.
    pub deleted_files: Vec<String>,
}

/// What reporting the files of a merge comes to.
pub open spec fn merge_reported(
    data_files: Seq<DataFile>,
    deleted_files: Seq<Seq<char>>,
    table: TableInfo,
    result: Result<Batch, ExecError>,
) -> bool {
    if unwritable(data_files, table) {
        result matches Err(ExecError::Iceberg(_))
    } else {
        exists|new_texts: Seq<Seq<char>>|
            {
                &&& #[trigger] written(new_texts, data_files, table)
                &&& if utf8_bytes(new_texts) > i32::MAX || utf8_bytes(deleted_files) > i32::MAX {
                    result matches Err(ExecError::Overflow(message)) && message@ == too_long()
                } else {
                    result matches Ok(batch) && reports(batch, new_texts, deleted_files)
                }
            }
    }
}

impl MergeWriteRun {
    /// No file is listed twice.
    pub open spec fn wf(self) -> bool {
        texts(self.deleted_files@).no_duplicates()
    }

    /// Starts the run.
    pub fn start() -> (run: MergeWriteRun)
        ensures
            run.wf(),
            run.deleted_files.len() == 0,
    {
        MergeWriteRun { deleted_files: Vec::new() }
    }

    /// Notes a file, unless it is noted already.
    fn note(&mut self, path: &String)
        ensures
            texts(final(self).deleted_files@) == (if texts(old(self).deleted_files@).contains(
                path@,
            ) {
                texts(old(self).deleted_files@)
            } else {
                texts(old(self).deleted_files@).push(path@)
            }),
    {
        let mut i: usize = 0;
        while i < self.deleted_files.len()
            invariant
                i <= self.deleted_files.len(),
                self.deleted_files == old(self).deleted_files,
                forall|k: int| 0 <= k < i ==> (#[trigger] self.deleted_files[k])@ != path@,
            decreases self.deleted_files.len() - i,
        {
            if same_text(self.deleted_files[i].as_str(), path.as_str()) {
                assert(texts(self.deleted_files@)[i as int] == path@);
                return;
            }
            i = i + 1;
        }
        let ghost before = self.deleted_files@;
        assert(!texts(before).contains(path@));
        self.deleted_files.push(path.clone());
        assert(texts(self.deleted_files@) =~= texts(before).push(path@));
    }

    /// Takes in one batch of merged rows: notes the files that they were read from,
    /// and hands on what is to be written.
    pub fn accept(&mut self, batch: Batch) -> (result: Result<Batch, ExecError>)
        requires
            old(self).wf(),
            batch.wf(),
        ensures
            final(self).wf(),
            texts(final(self).deleted_files@) == with_further(
                texts(old(self).deleted_files@),
                source_files(batch),
            ),
            source_files(batch).len() == 0 ==> *final(self) == *old(self),
            rows_to_write(batch, result),
    {
        let ghost before = texts(self.deleted_files@);
        let ghost paths = source_files(batch);
        proof {
            lemma_first_named(batch.names(), FILE_COL_NAME@);
            assert(batch.names().len() == batch.columns.len());
            further_entries_are_added_once(before, paths);
        }
        if let Some(column) = batch.column_index(FILE_COL_NAME) {
            assert(arrayable(batch.columns@[column as int]));
            let files = match stored_texts(&batch.columns[column]) {
                Some(files) => files,
                None => Vec::new(),
            };
            assert(paths == texts(files@));
            let mut i: usize = 0;
            assert(paths.take(0) =~= Seq::<Seq<char>>::empty());
            while i < files.len()
                invariant
                    i <= files.len(),
                    paths == texts(files@),
                    texts(self.deleted_files@) == with_further(before, paths.take(i as int)),
                    i == 0 ==> *self == *old(self),
                decreases files.len() - i,
            {
                assert(paths.take(i + 1).drop_last() =~= paths.take(i as int));
                self.note(&files[i]);
                i = i + 1;
            }
            assert(paths.take(i as int) =~= paths);
        }
        strip_file_column(batch)
    }

    /// Reports the files that were written and the paths of those that they replace.
    pub fn finish(self, data_files: &Vec<DataFile>, table: &TableInfo) -> (result: Result<
        Batch,
        ExecError,
    >)
        ensures
            merge_reported(data_files@, texts(self.deleted_files@), *table, result),
    {
        match serialize_data_files(data_files, table) {
            Err(error) => Err(error),
            Ok(new_texts) => {
                assert(written(texts(new_texts@), data_files@, *table));
                report(new_texts, self.deleted_files, "Failed to make result batch")
            },
        }
    }
}

} // verus!
