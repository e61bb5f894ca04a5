//! The commit step of UPDATE: reading the reports of the write step and turning them
//! into one change of the table.

use std::sync::Arc;

use datafusion::arrow::datatypes::{Field, Schema};
use iceberg::spec::DataFile;
use iceberg::table::Table;
use vstd::prelude::*;

use crate::batch::Batch;
use crate::columns::{
    Cell, FieldInfo, ValueType, column_cells, field_info, new_empty, new_field,
    new_schema, number_column, schema_fields, schema_metadata, schema_text, schema_texts,
    try_from_column,
};
use crate::error::ExecError;
use crate::files::{
    TableInfo, all_files, data_file_info, described, deserialize_data_files, files_of,
    keeps_partition, qualified_name, reads_as, same_partition, stands_for, table_metadata,
    table_name, table_namespace, table_text, written,
};
use crate::node::{
    DisplayFormat, InputDistribution, NodeProperties, PlanInput, one_child_wanted, only_child,
};
use crate::text::{decimal, decimal_text};
use crate::types::uint64;
use crate::write_result::{
    DATA_FILES_COL_NAME, DELETED_FILES_COL_NAME, has_text_column, read_column, readable, reports,
    reports_read_back, texts_under, unreadable,
};

verus! {

/// A schema of one column with a number, the number of updated rows.
pub open spec fn is_count_schema(schema: Schema) -> bool {
    &&& schema_fields(schema).len() == 1
    &&& field_info(*schema_fields(schema)[0]) == (FieldInfo {
        name: "count"@,
        column_type: uint64(),
        nullable: false,
    })
    &&& schema_metadata(schema).is_empty()
}

/// A batch that says how many rows were updated.
pub open spec fn counts(batch: Batch, count: u64) -> bool {
    &&& batch.wf()
    &&& is_count_schema(*batch.schema)
    &&& batch.row_count == 1
    &&& column_cells(batch.columns@[0]) == seq![Cell::UInt64(count)]
}

/// Physical plan node for the commit step of UPDATE. `P` stands for plans and `C`
/// for catalogs.
pub struct IcebergUpdateCommitExec<P, C> {
    /// The table that is updated.
    pub table: Table,
    /// Where the change is made known.
    pub catalog: C,
    /// Produces the reports of the write step.
    pub input: PlanInput<P>,
    /// The schema of the reports.
    pub schema: Arc<Schema>,
    /// The schema of the node's own result.
    pub count_schema: Arc<Schema>,
    /// What a planner has to know.
    pub plan_properties: NodeProperties,
}

/// A node in one line, as far as all formats have it.
pub open spec fn node_line(table: Table) -> Seq<char> {
    "IcebergUpdateCommitExec: table="@ + qualified_name(table)
}

/// The refusal of a partition other than the first.
pub open spec fn no_such_partition(partition: nat) -> Seq<char> {
    "IcebergUpdateCommitExec only has one partition, but got partition "@ + decimal(partition)
}

impl<P, C> IcebergUpdateCommitExec<P, C> {
    /// The node hands on a count, in one partition.
    pub open spec fn wf(self) -> bool {
        &&& is_count_schema(*self.count_schema)
        &&& self.plan_properties.schema == self.count_schema
        &&& self.plan_properties.partition_count == 1
        &&& self.plan_properties.emission is Final
        &&& self.plan_properties.boundedness is Bounded
    }

    /// Makes the node.
    pub fn new(table: Table, catalog: C, input: PlanInput<P>, schema: Arc<Schema>) -> (node: Self)
        ensures
            node.wf(),
            node.table == table,
            node.catalog == catalog,
            node.input == input,
            node.schema == schema,
    {
        let count_schema = Self::make_count_schema();
        let plan_properties = Self::compute_properties(count_schema.clone());
        IcebergUpdateCommitExec { table, catalog, input, schema, count_schema, plan_properties }
    }

    /// The node hands on its row at the end, in one partition.
    pub fn compute_properties(schema: Arc<Schema>) -> (properties: NodeProperties)
        ensures
            properties.schema == schema,
            properties.partition_count == 1,
            properties.emission is Final,
            properties.boundedness is Bounded,
    {
        NodeProperties::blocking(schema, 1)
    }

    /// Makes a batch that says how many rows were updated.
    pub fn make_count_batch(count: u64) -> (result: Result<Batch, ExecError>)
        ensures
            result is Ok,
            result matches Ok(batch) ==> counts(batch, count),
    {
        let column = number_column(vec![count]);
        assert(column_cells(column) =~= seq![Cell::UInt64(count)]);
        match try_from_column("count", column, false) {
            Ok(batch) => Ok(batch),
            Err(error) => {
                let context = Some("Failed to make UPDATE count batch!".to_string());
                Err(ExecError::Arrow { error, context })
            },
        }
    }

    /// Makes the schema of the node's result.
    pub fn make_count_schema() -> (schema: Arc<Schema>)
        ensures
            is_count_schema(*schema),
    {
        let fields: Vec<Arc<Field>> = vec![Arc::new(new_field("count", ValueType::UInt64, false))];
        new_schema(fields)
    }

    /// How a plan speaks of the node.
    pub fn fmt_as(&self, format: DisplayFormat) -> (line: String)
        ensures
            match format {
                DisplayFormat::Default | DisplayFormat::TreeRender => line@ == node_line(
                    self.table,
                ),
                DisplayFormat::Verbose => exists|schema: Seq<char>|
                    {
                        &&& #[trigger] schema_texts(*self.schema).contains(schema)
                        &&& line@ == node_line(self.table) + ", schema="@ + schema
                    },
            },
    {
        let mut line = "IcebergUpdateCommitExec: table=".to_string();
        line.append(table_text(&self.table).as_str());
        if format == DisplayFormat::Verbose {
            line.append(", schema=");
            let schema = schema_text(&self.schema);
            line.append(schema.as_str());
            assert(schema_texts(*self.schema).contains(schema@));
        }
        line
    }

    /// The node's name.
    pub fn name(&self) -> (name: &'static str)
        ensures
            name@ == "IcebergUpdateCommitExec"@,
    {
        "IcebergUpdateCommitExec"
    }

    /// The plan that the node takes its rows from.
    pub fn children(&self) -> (children: Vec<&P>)
        ensures
            children@ == seq![&self.input.plan],
    {
        vec![&self.input.plan]
    }

    /// All reports have to come in one partition: they make one change.
    pub fn required_input_distribution(&self) -> (distribution: Vec<InputDistribution>)
        ensures
            distribution@ == seq![InputDistribution::SinglePartition],
    {
        vec![InputDistribution::SinglePartition]
    }

    /// Spreading the input over more partitions is of no use.
    pub fn benefits_from_input_partitioning(&self) -> (benefits: Vec<bool>)
        ensures
            benefits@ == seq![false],
    {
        vec![false]
    }

    /// The same node over another plan, of which it takes exactly one.
    pub fn with_new_children(self, children: Vec<PlanInput<P>>) -> (result: Result<
        Self,
        ExecError,
    >)
        ensures
            match result {
                Ok(node) => {
                    &&& children@ == seq![node.input]
                    &&& node.wf()
                    &&& node.table == self.table
                    &&& node.catalog == self.catalog
                    &&& node.schema == self.schema
                },
                Err(ExecError::Internal(message)) => {
                    &&& children.len() != 1
                    &&& message@ == one_child_wanted(
                        "IcebergUpdateCommitExec"@,
                        children.len() as nat,
                    )
                },
                Err(_) => false,
            },
    {
        match only_child("IcebergUpdateCommitExec", children) {
            Err(error) => Err(error),
            Ok(input) => Ok(Self::new(self.table, self.catalog, input, self.schema)),
        }
    }

    /// Checks that the partition asked for is the only one there is.
    pub fn check_partition(&self, partition: usize) -> (result: Result<(), ExecError>)
        ensures
            match result {
                Ok(()) => partition == 0,
                Err(ExecError::Internal(message)) => partition != 0 && message@
                    == no_such_partition(partition as nat),
                Err(_) => false,
            },
    {
        if partition == 0 {
            return Ok(());
        }
        let mut message =
            "IcebergUpdateCommitExec only has one partition, but got partition ".to_string();
        message.append(decimal_text(partition).as_str());
        Err(ExecError::Internal(message))
    }

    /// What reading the files of the table takes.
    pub fn table_info(&self) -> (info: TableInfo)
        ensures
            info == described(self.table),
    {
        TableInfo::of(&self.table)
    }

    /// What is to be done with what the reports say.
    pub fn decide(&self, run: CommitRun) -> (action: CommitAction)
        requires
            self.wf(),
            run.wf(),
        ensures
            match action {
                CommitAction::Nothing(batch) => {
                    &&& run.new_files.len() == 0 && run.deleted_files.len() == 0
                    &&& batch.wf()
                    &&& batch.schema == self.count_schema
                    &&& batch.row_count == 0
                },
                CommitAction::Commit(delta) => {
                    &&& run.new_files.len() != 0 || run.deleted_files.len() != 0
                    &&& delta.added == (if run.new_files.len() == 0 {
                        None
                    } else {
                        Some(run.new_files)
                    })
                    &&& delta.removed == (if run.deleted_files.len() == 0 {
                        None
                    } else {
                        Some(run.deleted_files)
                    })
                    &&& delta.count == record_total(run.new_files@)
                },
            },
    {
        if run.new_files.len() == 0 && run.deleted_files.len() == 0 {
            return CommitAction::Nothing(new_empty(self.count_schema.clone()));
        }
        let count = run.total_record_count;
        let added = if run.new_files.len() == 0 {
            None
        } else {
            Some(run.new_files)
        };
        let removed = if run.deleted_files.len() == 0 {
            None
        } else {
            Some(run.deleted_files)
        };
        CommitAction::Commit(RowDelta { added, removed, count })
    }
}

impl<P: Clone, C: Clone> Clone for IcebergUpdateCommitExec<P, C> {
    fn clone(&self) -> (copy: Self)
        ensures
            table_metadata(copy.table) == table_metadata(self.table),
            table_namespace(copy.table) == table_namespace(self.table),
            table_name(copy.table) == table_name(self.table),
            cloned(self.catalog, copy.catalog),
            cloned(self.input.plan, copy.input.plan),
            copy.input.partition_count == self.input.partition_count,
            copy.schema == self.schema,
            copy.count_schema == self.count_schema,
            copy.plan_properties == self.plan_properties,
    {
        IcebergUpdateCommitExec {
            table: self.table.clone(),
            catalog: self.catalog.clone(),
            input: PlanInput {
                plan: self.input.plan.clone(),
                partition_count: self.input.partition_count,
            },
            schema: self.schema.clone(),
            count_schema: self.count_schema.clone(),
            plan_properties: self.plan_properties.clone(),
        }
    }
}

/// One change of a table: files that are added and files that are removed.
pub struct RowDelta {
    /// The files that are added, if there are any.
    pub added: Option<Vec<DataFile>>,
    /// The files that are removed, if there are any.
    pub removed: Option<Vec<DataFile>>,
    /// How many records the files that are added hold.
    pub count: u64,
}

/// What the commit step has to do.
pub enum CommitAction {
    /// Nothing: there is no change, and this is the result.
    Nothing(Batch),
    /// To make this change. The result is then a batch with its count.
    Commit(RowDelta),
}

/// How many records the files hold, all together.
pub open spec fn record_total(files: Seq<DataFile>) -> nat
    decreases files.len(),
{
    if files.len() == 0 {
        0
    } else {
        record_total(files.drop_last()) + data_file_info(files.last()).record_count as nat
    }
}

/// Two lists of files hold as many records as both of them one after another.
pub proof fn record_totals_add_up(first: Seq<DataFile>, second: Seq<DataFile>)
    ensures
        record_total(first + second) == record_total(first) + record_total(second),
    decreases second.len(),
{
    if second.len() == 0 {
        assert(first + second =~= first);
    } else {
        assert((first + second).drop_last() =~= first + second.drop_last());
        record_totals_add_up(first, second.drop_last());
    }
}

/// Files that are written as texts and read back hold as many records as before.
pub proof fn record_totals_survive(
    strings: Seq<Seq<char>>,
    files: Seq<DataFile>,
    table: TableInfo,
)
    requires
        written(strings, files, table),
        all_files(strings, table),
    ensures
        record_total(files_of(strings, table)) == record_total(files),
    decreases files.len(),
{
    if files.len() > 0 {
        let n = files.len() - 1;
        let fewer_strings = strings.drop_last();
        let fewer_files = files.drop_last();
        assert(stands_for(strings[n], files[n], table));
        assert(table.file_of(strings[n]) is Some);
        assert forall|i: int| 0 <= i < fewer_files.len() implies stands_for(
            #[trigger] fewer_strings[i],
            fewer_files[i],
            table,
        ) by {
            assert(stands_for(strings[i], files[i], table));
        }
        assert forall|i: int| 0 <= i < fewer_strings.len() implies table.file_of(
            #[trigger] fewer_strings[i],
        ) is Some by {
            assert(table.file_of(strings[i]) is Some);
        }
        record_totals_survive(fewer_strings, fewer_files, table);
        assert(files_of(strings, table).drop_last() =~= files_of(fewer_strings, table));
    }
}

/// The files that a report lists as written.
pub open spec fn reported_new(batch: Batch, table: TableInfo) -> Seq<DataFile> {
    files_of(texts_under(batch, DATA_FILES_COL_NAME@), table)
}

/// The files that a report lists as replaced.
pub open spec fn reported_deleted(batch: Batch, table: TableInfo) -> Seq<DataFile> {
    files_of(texts_under(batch, DELETED_FILES_COL_NAME@), table)
}

/// Every entry of a report stands for a file.
pub open spec fn lists_files(batch: Batch, table: TableInfo) -> bool {
    &&& all_files(texts_under(batch, DATA_FILES_COL_NAME@), table)
    &&& all_files(texts_under(batch, DELETED_FILES_COL_NAME@), table)
}

/// What the write step of an update reports, the commit step reads: as many files
/// on either side, in the same order, each the same file as before and under the
/// table's partition spec, with the same partition values as far as these are kept, and
/// as many records in the new ones.
pub proof fn reported_files_are_committed(
    batch: Batch,
    new_texts: Seq<Seq<char>>,
    old_texts: Seq<Seq<char>>,
    new_files: Seq<DataFile>,
    old_files: Seq<DataFile>,
    table: TableInfo,
)
    requires
        written(new_texts, new_files, table),
        written(old_texts, old_files, table),
        reports(batch, new_texts, old_texts),
        lists_files(batch, table),
    ensures
        readable(batch),
        reported_new(batch, table).len() == new_files.len(),
        reported_deleted(batch, table).len() == old_files.len(),
        forall|i: int|
            0 <= i < new_files.len() ==> reads_as(
                data_file_info(#[trigger] reported_new(batch, table)[i]),
                data_file_info(new_files[i]),
                table.partition_spec_id,
            ),
        forall|i: int|
            0 <= i < old_files.len() ==> reads_as(
                data_file_info(#[trigger] reported_deleted(batch, table)[i]),
                data_file_info(old_files[i]),
                table.partition_spec_id,
            ),
        forall|i: int|
            0 <= i < new_files.len() && keeps_partition(new_files[i], table.partition_type)
                ==> same_partition(
                data_file_info(#[trigger] reported_new(batch, table)[i]),
                data_file_info(new_files[i]),
            ),
        forall|i: int|
            0 <= i < old_files.len() && keeps_partition(old_files[i], table.partition_type)
                ==> same_partition(
                data_file_info(#[trigger] reported_deleted(batch, table)[i]),
                data_file_info(old_files[i]),
            ),
        record_total(reported_new(batch, table)) == record_total(new_files),
{
    reports_read_back(batch, new_texts, old_texts);
    record_totals_survive(new_texts, new_files, table);
    assert forall|i: int| 0 <= i < new_files.len() implies stands_for(
        new_texts[i],
        new_files[i],
        table,
    ) && table.file_of(new_texts[i]) == Some(#[trigger] reported_new(batch, table)[i]) by {
        assert(stands_for(new_texts[i], new_files[i], table));
        assert(table.file_of(new_texts[i]) is Some);
    }
    assert forall|i: int| 0 <= i < old_files.len() implies stands_for(
        old_texts[i],
        old_files[i],
        table,
    ) && table.file_of(old_texts[i]) == Some(#[trigger] reported_deleted(batch, table)[i]) by {
        assert(stands_for(old_texts[i], old_files[i], table));
        assert(table.file_of(old_texts[i]) is Some);
    }
}

/// The commit step of an update at work: what the reports have said so far.
pub struct CommitRun {
    /// The files that were written.
    pub new_files: Vec<DataFile>,
    /// The files that they replace.
    pub deleted_files: Vec<DataFile>,
    /// How many records the files that were written hold.
    pub total_record_count: u64,
}

/// The refusal of more records than can be counted.
pub open spec fn too_many_records() -> Seq<char> {
    "The new files hold too many records"@
}

/// Counts the records of files on top of others, if they can be counted.
fn add_record_counts(total: u64, files: &Vec<DataFile>) -> (sum: Option<u64>)
    ensures
        match sum {
            Some(sum) => sum == total + record_total(files@),
            None => total + record_total(files@) > u64::MAX,
        },
{
    let mut sum: u64 = total;
    let mut i: usize = 0;
    while i < files.len()
        invariant
            i <= files.len(),
            sum == total + record_total(files@.take(i as int)),
        decreases files.len() - i,
    {
        let count: u64 = files[i].record_count();
        proof {
            assert(files@.take(i + 1).drop_last() =~= files@.take(i as int));
            assert(files@ =~= files@.take(i + 1) + files@.skip(i + 1));
            record_totals_add_up(files@.take(i + 1), files@.skip(i + 1));
        }
        if count > u64::MAX - sum {
            return None;
        }
        sum = sum + count;
        i = i + 1;
    }
    assert(files@.take(i as int) =~= files@);
    Some(sum)
}

impl CommitRun {
    /// The count is that of the files that were written.
    pub open spec fn wf(self) -> bool {
        self.total_record_count == record_total(self.new_files@)
    }

    /// Starts without any report.
    pub fn start() -> (run: CommitRun)
        ensures
            run.wf(),
            run.new_files.len() == 0,
            run.deleted_files.len() == 0,
    {
        CommitRun { new_files: Vec::new(), deleted_files: Vec::new(), total_record_count: 0 }
    }

    /// Takes in the files of one report.
    pub fn add_files(&mut self, new_files: Vec<DataFile>, deleted_files: Vec<DataFile>)
        requires
            old(self).wf(),
            old(self).total_record_count + record_total(new_files@) <= u64::MAX,
        ensures
            final(self).wf(),
            final(self).new_files@ == old(self).new_files@ + new_files@,
            final(self).deleted_files@ == old(self).deleted_files@ + deleted_files@,
            final(self).total_record_count == old(self).total_record_count + record_total(
                new_files@,
            ),
    {
        proof {
            record_totals_add_up(self.new_files@, new_files@);
        }
        let total = add_record_counts(self.total_record_count, &new_files).unwrap();
        let mut new_files = new_files;
        let mut deleted_files = deleted_files;
        self.new_files.append(&mut new_files);
        self.deleted_files.append(&mut deleted_files);
        self.total_record_count = total;
    }

    /// Takes in one report. One that cannot be read, or that lists more records than
    /// can be counted, leaves everything as it was.
    pub fn absorb(&mut self, batch: &Batch, table: &TableInfo) -> (result: Result<(), ExecError>)
        requires
            old(self).wf(),
            batch.wf(),
        ensures
            final(self).wf(),
            match result {
                Ok(()) => {
                    &&& readable(*batch)
                    &&& lists_files(*batch, *table)
                    &&& final(self).new_files@ == old(self).new_files@ + reported_new(
                        *batch,
                        *table,
                    )
                    &&& final(self).deleted_files@ == old(self).deleted_files@
                        + reported_deleted(*batch, *table)
                    &&& final(self).total_record_count == old(self).total_record_count
                        + record_total(reported_new(*batch, *table))
                },
                Err(error) => {
                    &&& *final(self) == *old(self)
                    &&& if !has_text_column(*batch, DATA_FILES_COL_NAME@) {
                        unreadable(*batch, DATA_FILES_COL_NAME@, error)
                    } else if !has_text_column(*batch, DELETED_FILES_COL_NAME@) {
                        unreadable(*batch, DELETED_FILES_COL_NAME@, error)
                    } else if !lists_files(*batch, *table) {
                        error is Iceberg
                    } else {
                        &&& old(self).total_record_count + record_total(
                            reported_new(*batch, *table),
                        ) > u64::MAX
                        &&& error matches ExecError::Overflow(message) && message@
                            == too_many_records()
                    }
                },
            },
    {
        let new_texts = match read_column(batch, DATA_FILES_COL_NAME) {
            Err(error) => {
                return Err(error);
            },
            Ok(new_texts) => new_texts,
        };
        let deleted_texts = match read_column(batch, DELETED_FILES_COL_NAME) {
            Err(error) => {
                return Err(error);
            },
            Ok(deleted_texts) => deleted_texts,
        };
        let new_files = match deserialize_data_files(&new_texts, table) {
            Err(error) => {
                return Err(error);
            },
            Ok(new_files) => new_files,
        };
        let deleted_files = match deserialize_data_files(&deleted_texts, table) {
            Err(error) => {
                return Err(error);
            },
            Ok(deleted_files) => deleted_files,
        };
        match add_record_counts(self.total_record_count, &new_files) {
            None => Err(ExecError::Overflow("The new files hold too many records".to_string())),
            Some(_) => {
                self.add_files(new_files, deleted_files);
                Ok(())
            },
        }
    }
}

} // verus!
