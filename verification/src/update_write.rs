//! The write step of UPDATE: reading every file that may hold a matching row,
//! changing the rows that match, and writing all rows to new files.

use std::sync::Arc;

use datafusion::arrow::array::ArrayData;
use datafusion::arrow::datatypes::Schema;
use datafusion::error::DataFusionError;
use iceberg::spec::{DataFile, Struct};
use iceberg::table::Table;
use vstd::prelude::*;

use crate::assignments::{
    evaluates, fits_beside, gives_arrays, may_select, may_update, update_rows,
};
use crate::batch::Batch;
use crate::columns::{schema_text, schema_texts};
use crate::error::ExecError;
use crate::files::{
    FileContent, FileFormat, TableInfo, build_data_file, data_file_info, default_spec_id,
    partition_values, prepare_write, qualified_name, serialize_data_files, table_metadata,
    table_name, table_namespace, table_text, unwritable, write_checked, written,
};
use crate::node::{DisplayFormat, NodeProperties, PlanInput, one_child_wanted, only_child};
use crate::text::{decimal, decimal_text, quoted_list, quoted_list_text, texts, utf8_bytes};
use crate::write_result::{
    is_result_schema, report, reports, result_batch, result_schema, too_long,
};

verus! {

/// Several filters, all of which have to hold.
pub enum FilterTree<'a, F> {
    /// One filter.
    Filter(&'a F),
    /// Both sides have to hold.
    And(Box<FilterTree<'a, F>>, Box<FilterTree<'a, F>>),
}

/// The filters joined one after another, from the left.
pub open spec fn conjunction<'a, F>(filters: Seq<F>) -> FilterTree<'a, F>
    decreases filters.len(),
{
    if filters.len() <= 1 {
        FilterTree::Filter(&filters[0])
    } else {
        FilterTree::And(
            Box::new(conjunction(filters.drop_last())),
            Box::new(FilterTree::Filter(&filters.last())),
        )
    }
}

/// Whether the joined filters hold, if each of them holds as `truth` says.
pub open spec fn holds<'a, F>(tree: FilterTree<'a, F>, truth: spec_fn(F) -> bool) -> bool
    decreases tree,
{
    match tree {
        FilterTree::Filter(filter) => truth(*filter),
        FilterTree::And(left, right) => holds(*left, truth) && holds(*right, truth),
    }
}

/// The joined filters hold exactly if every filter holds.
pub proof fn conjunction_holds_if_all_do<'a, F>(filters: Seq<F>, truth: spec_fn(F) -> bool)
    requires
        filters.len() > 0,
    ensures
        holds(conjunction(filters), truth) == (forall|i: int|
            0 <= i < filters.len() ==> truth(#[trigger] filters[i])),
    decreases filters.len(),
{
    if filters.len() > 1 {
        let before = filters.drop_last();
        conjunction_holds_if_all_do(before, truth);
        assert(holds(FilterTree::Filter(&filters.last()), truth) == truth(filters.last()));
        if holds(conjunction(filters), truth) {
            assert forall|i: int| 0 <= i < filters.len() implies truth(#[trigger] filters[i]) by {
                if i < before.len() {
                    assert(truth(before[i]));
                }
            }
        } else if forall|i: int| 0 <= i < filters.len() ==> truth(#[trigger] filters[i]) {
            assert forall|i: int| 0 <= i < before.len() implies truth(#[trigger] before[i]) by {
                assert(truth(filters[i]));
            }
            assert(truth(filters[filters.len() - 1]));
        }
    }
}

/// Joins filters one after another, from the left. Without filters there is nothing
/// to join.
pub fn combine_filters<'a, F>(filters: &'a Vec<F>) -> (combined: Option<FilterTree<'a, F>>)
    ensures
        match combined {
            None => filters.len() == 0,
            Some(tree) => filters.len() > 0 && tree == conjunction(filters@),
        },
{
    if filters.len() == 0 {
        return None;
    }
    let mut tree = FilterTree::Filter(&filters[0]);
    let mut i: usize = 1;
    while i < filters.len()
        invariant
            1 <= i <= filters.len(),
            tree == conjunction(filters@.take(i as int)),
        decreases filters.len() - i,
    {
        assert(filters@.take(i + 1).drop_last() =~= filters@.take(i as int));
        tree = FilterTree::And(Box::new(tree), Box::new(FilterTree::Filter(&filters[i])));
        i = i + 1;
    }
    assert(filters@.take(i as int) =~= filters@);
    Some(tree)
}

/// A file that a scan found: one that may hold a matching row.
pub struct ScannedFile {
    /// Where the file is.
    pub data_file_path: String,
    /// The partition that its rows belong to, if the scan tells.
    pub partition: Option<Struct>,
    /// The file's format.
    pub data_file_format: FileFormat,
    /// The file's size.
    pub file_size_in_bytes: u64,
    /// How many records the file holds, if the scan tells.
    pub record_count: Option<u64>,
}

/// A data file that records what a scan found. Where the scan does not tell, the
/// partition has no values and the number of records is zero.
pub open spec fn records(file: DataFile, scanned: ScannedFile, partition_spec_id: i32) -> bool {
    let info = data_file_info(file);
    &&& info.content == FileContent::Data
    &&& info.file_path == scanned.data_file_path@
    &&& info.file_format == scanned.data_file_format
    &&& info.partition_spec_id == partition_spec_id
    &&& info.file_size_in_bytes == scanned.file_size_in_bytes
    &&& info.lower_bounds.is_empty()
    &&& info.upper_bounds.is_empty()
    &&& info.record_count == (match scanned.record_count {
        Some(count) => count,
        None => 0,
    })
    &&& match scanned.partition {
        Some(partition) => info.partition == partition,
        None => partition_values(info.partition).len() == 0,
    }
}

/// Makes the data file of a file that a scan found.
pub fn deleted_data_file(scanned: ScannedFile, partition_spec_id: i32) -> (result: Result<
    DataFile,
    ExecError,
>)
    ensures
        result is Ok,
        result matches Ok(file) ==> records(file, scanned, partition_spec_id),
{
    let partition = match scanned.partition {
        Some(partition) => partition,
        None => Struct::empty(),
    };
    let record_count: u64 = match scanned.record_count {
        Some(count) => count,
        None => 0,
    };
    match build_data_file(
        scanned.data_file_path,
        partition_spec_id,
        partition,
        scanned.data_file_format,
        scanned.file_size_in_bytes,
        record_count,
    ) {
        Ok(file) => Ok(file),
        Err(error) => {
            let mut message = "Failed to build DataFile: ".to_string();
            message.append(error.as_str());
            Err(ExecError::Unexpected(message))
        },
    }
}

/// Makes the data files of the files that a scan found, one for each and in order.
pub fn deleted_data_files(scanned: Vec<ScannedFile>, partition_spec_id: i32) -> (result: Result<
    Vec<DataFile>,
    ExecError,
>)
    ensures
        result is Ok,
        result matches Ok(files) ==> {
            &&& files.len() == scanned.len()
            &&& forall|i: int|
                0 <= i < files.len() ==> records(
                    #[trigger] files[i],
                    scanned[i],
                    partition_spec_id,
                )
        },
{
    let ghost all = scanned@;
    let mut rest = scanned;
    let mut files: Vec<DataFile> = Vec::new();
    while rest.len() > 0
        invariant
            files.len() + rest.len() == all.len(),
            rest@ == all.skip(files.len() as int),
            forall|i: int|
                0 <= i < files.len() ==> records(#[trigger] files[i], all[i], partition_spec_id),
        decreases rest.len(),
    {
        let next = rest.remove(0);
        assert(next == all[files.len() as int]);
        match deleted_data_file(next, partition_spec_id) {
            Ok(file) => {
                files.push(file);
            },
            Err(error) => {
                return Err(error);
            },
        }
        assert(rest@ =~= all.skip(files.len() as int));
    }
    Ok(files)
}

/// What an update has gone through so far.
#[derive(Clone, Copy, Debug, PartialEq, Eq, Structural)]
pub struct UpdateMetrics {
    /// How many batches were read.
    pub total_batches: u64,
    /// How many of them were changed.
    pub batches_with_updates: u64,
    /// How many rows were read.
    pub total_rows_scanned: u64,
    /// How many rows the changed batches have. Not all of these rows need to be
    /// changed.
    pub total_rows_updated: u64,
}

impl UpdateMetrics {
    /// No more can have been changed than was read.
    pub open spec fn wf(self) -> bool {
        &&& self.batches_with_updates <= self.total_batches
        &&& self.total_rows_updated <= self.total_rows_scanned
    }

    /// Whether one more batch of that many rows can be counted.
    pub open spec fn can_count(self, rows: nat) -> bool {
        self.total_batches < u64::MAX && self.total_rows_scanned + rows <= u64::MAX
    }

    /// Nothing yet.
    pub fn new() -> (metrics: UpdateMetrics)
        ensures
            metrics == (UpdateMetrics {
                total_batches: 0,
                batches_with_updates: 0,
                total_rows_scanned: 0,
                total_rows_updated: 0,
            }),
            metrics.wf(),
    {
        UpdateMetrics {
            total_batches: 0,
            batches_with_updates: 0,
            total_rows_scanned: 0,
            total_rows_updated: 0,
        }
    }

    /// Whether one more batch of that many rows can be counted.
    pub fn has_room_for(&self, rows: usize) -> (room: bool)
        ensures
            room == self.can_count(rows as nat),
    {
        self.total_batches < u64::MAX && rows as u64 <= u64::MAX - self.total_rows_scanned
    }

    /// Counts one more batch.
    pub fn count(&mut self, rows: usize, changed: bool)
        requires
            old(self).wf(),
            old(self).can_count(rows as nat),
        ensures
            final(self).wf(),
            final(self).total_batches == old(self).total_batches + 1,
            final(self).total_rows_scanned == old(self).total_rows_scanned + rows,
            final(self).batches_with_updates == old(self).batches_with_updates + (if changed {
                1int
            } else {
                0
            }),
            final(self).total_rows_updated == old(self).total_rows_updated + (if changed {
                rows as int
            } else {
                0
            }),
    {
        self.total_batches = self.total_batches + 1;
        self.total_rows_scanned = self.total_rows_scanned + rows as u64;
        if changed {
            self.batches_with_updates = self.batches_with_updates + 1;
            self.total_rows_updated = self.total_rows_updated + rows as u64;
        }
    }
}

/// Physical plan node for the write step of UPDATE. `P` stands for plans, `F` for
/// filters and `E` for expressions.
///
/// The node reports the files that it wrote and the files that they replace.
pub struct IcebergUpdateWriteExec<P, F, E> {
    /// The table that is updated.
    pub table: Table,
    /// Produces the rows of the table.
    pub input: PlanInput<P>,
    /// What has to hold of a row for it to be updated.
    pub filters: Vec<F>,
    /// The columns that get new values, and the values.
    pub assignments: Vec<(String, E)>,
    /// The schema of the report.
    pub result_schema: Arc<Schema>,
    /// What a planner has to know.
    pub plan_properties: NodeProperties,
}

/// A node in one line, as far as all formats have it.
pub open spec fn node_line(table: Table) -> Seq<char> {
    "IcebergUpdateWriteExec: table="@ + qualified_name(table)
}

impl<P, F, E> IcebergUpdateWriteExec<P, F, E> {
    /// The node hands on reports, in as many partitions as its input has.
    pub open spec fn wf(self) -> bool {
        &&& is_result_schema(*self.result_schema)
        &&& self.plan_properties.schema == self.result_schema
        &&& self.plan_properties.partition_count == self.input.partition_count
        &&& self.plan_properties.emission is Final
        &&& self.plan_properties.boundedness is Bounded
    }

    /// The columns that get new values.
    pub open spec fn assigned_columns(self) -> Seq<Seq<char>> {
        self.assignments@.map_values(|assignment: (String, E)| assignment.0@)
    }

    /// Makes the node. The schema of the table's rows plays no part.
    pub fn new(
        table: Table,
        input: PlanInput<P>,
        filters: Vec<F>,
        assignments: Vec<(String, E)>,
        _schema: Arc<Schema>,
    ) -> (node: Self)
        ensures
            node.wf(),
            node.table == table,
            node.input == input,
            node.filters == filters,
            node.assignments == assignments,
    {
        let result_schema = Self::make_result_schema();
        let plan_properties = Self::compute_properties(&input, result_schema.clone());
        IcebergUpdateWriteExec {
            table,
            input,
            filters,
            assignments,
            result_schema,
            plan_properties,
        }
    }

    /// The node hands on its rows at the end, in as many partitions as its input has.
    pub fn compute_properties(input: &PlanInput<P>, schema: Arc<Schema>) -> (properties:
        NodeProperties)
        ensures
            properties.schema == schema,
            properties.partition_count == input.partition_count,
            properties.emission is Final,
            properties.boundedness is Bounded,
    {
        NodeProperties::blocking(schema, input.partition_count)
    }

    /// Makes the schema of a report.
    pub fn make_result_schema() -> (schema: Arc<Schema>)
        ensures
            is_result_schema(*schema),
    {
        result_schema()
    }

    /// Makes a report of the files that were written and the files that they replace.
    pub fn make_result_batch(data_files: Vec<String>, deleted_files: Vec<String>) -> (result:
        Result<Batch, ExecError>)
        requires
            utf8_bytes(texts(data_files@)) <= i32::MAX,
            utf8_bytes(texts(deleted_files@)) <= i32::MAX,
        ensures
            result is Ok,
            result matches Ok(batch) ==> reports(batch, texts(data_files@), texts(deleted_files@)),
    {
        result_batch(data_files, deleted_files, "Failed to make UPDATE result batch")
    }

    /// Makes the data files of the files that a scan of the table found, one for each
    /// and in order: they are the files that are replaced.
    pub fn get_deleted_data_files(&self, scanned: Vec<ScannedFile>) -> (result: Result<
        Vec<DataFile>,
        ExecError,
    >)
        ensures
            result is Ok,
            result matches Ok(files) ==> {
                &&& files.len() == scanned.len()
                &&& forall|i: int|
                    0 <= i < files.len() ==> records(
                        #[trigger] files[i],
                        scanned[i],
                        default_spec_id(table_metadata(self.table)),
                    )
            },
    {
        deleted_data_files(scanned, self.table.metadata().default_partition_spec_id())
    }

    /// Updates the rows of a batch for which the predicate says true. Without a
    /// predicate all rows are updated. Says whether any value is another one now; of runs
    /// that cannot be compared it says so wherever a row is selected.
    ///
    /// Rows for which the predicate says false or nothing stay as they are, so that
    /// the new files hold them too.
    pub fn apply_assignments<V: Fn(&E, &Batch) -> Result<ArrayData, DataFusionError>>(
        &self,
        batch: Batch,
        predicate: Option<&E>,
        evaluate: V,
    ) -> (result: Result<(Batch, bool), ExecError>)
        requires
            batch.wf(),
            forall|expression: &E, input: &Batch| evaluate.requires((expression, input)),
            gives_arrays(evaluate),
            may_select(evaluate, batch, predicate) ==> forall|k: int, value: ArrayData|
                0 <= k < self.assignments.len() && #[trigger] evaluates(
                    evaluate,
                    self.assignments[k].1,
                    batch,
                    Ok(value),
                ) ==> fits_beside(batch, self.assignments[k].0@, value),
        ensures
            may_update(evaluate, self.assignments@, batch, predicate, false, result),
    {
        update_rows(batch, predicate, &self.assignments, evaluate, false)
    }

    /// Updates the rows of a batch as [`Self::apply_assignments`] does, as long as it
    /// is easy to see that the new values fit into one column with the old ones.
    pub fn apply_assignments_plainly<V: Fn(&E, &Batch) -> Result<ArrayData, DataFusionError>>(
        &self,
        batch: Batch,
        predicate: Option<&E>,
        evaluate: V,
    ) -> (result: Result<(Batch, bool), ExecError>)
        requires
            batch.wf(),
            forall|expression: &E, input: &Batch| evaluate.requires((expression, input)),
            gives_arrays(evaluate),
        ensures
            may_update(evaluate, self.assignments@, batch, predicate, true, result),
    {
        update_rows(batch, predicate, &self.assignments, evaluate, true)
    }

    /// Checks that the updated rows can be written, and says what that takes.
    pub fn prepare(&self) -> (result: Result<TableInfo, ExecError>)
        ensures
            write_checked(self.table, "UPDATE"@, result),
    {
        prepare_write(&self.table, "UPDATE")
    }

    /// The node's name.
    pub fn name(&self) -> (name: &'static str)
        ensures
            name@ == "IcebergUpdateWriteExec"@,
    {
        "IcebergUpdateWriteExec"
    }

    /// Spreading the input over more partitions is of no use.
    pub fn benefits_from_input_partitioning(&self) -> (benefits: Vec<bool>)
        ensures
            benefits@ == seq![false],
    {
        vec![false]
    }

    /// The rows stay in the order in which they come.
    pub fn maintains_input_order(&self) -> (maintains: Vec<bool>)
        ensures
            maintains@ == seq![true],
    {
        vec![true]
    }

    /// The plan that the node takes its rows from.
    pub fn children(&self) -> (children: Vec<&P>)
        ensures
            children@ == seq![&self.input.plan],
    {
        vec![&self.input.plan]
    }

    /// The same node over another plan, of which it takes exactly one.
    pub fn with_new_children(self, children: Vec<PlanInput<P>>) -> (result: Result<
        Self,
        ExecError,
    >)
        ensures
            match result {
                Ok(node) => {
                    &&& children@ == seq![node.input]
                    &&& node.wf()
                    &&& node.table == self.table
                    &&& node.filters == self.filters
                    &&& node.assignments == self.assignments
                },
                Err(ExecError::Internal(message)) => {
                    &&& children.len() != 1
                    &&& message@ == one_child_wanted(
                        "IcebergUpdateWriteExec"@,
                        children.len() as nat,
                    )
                },
                Err(_) => false,
            },
    {
        match only_child("IcebergUpdateWriteExec", children) {
            Err(error) => Err(error),
            Ok(input) => {
                let schema = self.plan_properties.schema.clone();
                Ok(Self::new(self.table, input, self.filters, self.assignments, schema))
            },
        }
    }

    /// The names of the columns that get new values, in order.
    fn assigned_column_names(&self) -> (names: Vec<String>)
        ensures
            texts(names@) == self.assigned_columns(),
    {
        let mut names: Vec<String> = Vec::new();
        let mut i: usize = 0;
        while i < self.assignments.len()
            invariant
                i <= self.assignments.len(),
                names.len() == i,
                forall|k: int|
                    0 <= k < i ==> (#[trigger] names[k])@ == self.assignments[k].0@,
            decreases self.assignments.len() - i,
        {
            names.push(self.assignments[i].0.clone());
            i = i + 1;
        }
        assert(texts(names@) =~= self.assigned_columns());
        names
    }

    /// How a plan speaks of the node.
    pub fn fmt_as(&self, format: DisplayFormat) -> (line: String)
        ensures
            match format {
                DisplayFormat::Default => line@ == node_line(self.table) + ", assignments="@
                    + decimal(self.assignments.len() as nat),
                DisplayFormat::Verbose => exists|schema: Seq<char>|
                    {
                        &&& #[trigger] schema_texts(*self.result_schema).contains(schema)
                        &&& line@ == node_line(self.table) + ", assignments="@ + quoted_list(
                            self.assigned_columns(),
                        ) + ", result_schema="@ + schema
                    },
                DisplayFormat::TreeRender => line@ == node_line(self.table),
            },
    {
        let mut line = "IcebergUpdateWriteExec: table=".to_string();
        line.append(table_text(&self.table).as_str());
        match format {
            DisplayFormat::Default => {
                line.append(", assignments=");
                line.append(decimal_text(self.assignments.len()).as_str());
            },
            DisplayFormat::Verbose => {
                line.append(", assignments=");
                line.append(quoted_list_text(&self.assigned_column_names()).as_str());
                line.append(", result_schema=");
                let schema = schema_text(&self.result_schema);
                line.append(schema.as_str());
                assert(schema_texts(*self.result_schema).contains(schema@));
            },
            DisplayFormat::TreeRender => {},
        }
        line
    }
}

impl<P: Clone, F: Clone, E: Clone> Clone for IcebergUpdateWriteExec<P, F, E> {
    fn clone(&self) -> (copy: Self)
        ensures
            table_metadata(copy.table) == table_metadata(self.table),
            table_namespace(copy.table) == table_namespace(self.table),
            table_name(copy.table) == table_name(self.table),
            cloned(self.input.plan, copy.input.plan),
            copy.input.partition_count == self.input.partition_count,
            copy.filters.len() == self.filters.len(),
            forall|i: int|
                0 <= i < self.filters.len() ==> cloned(#[trigger] self.filters[i], copy.filters[i]),
            copy.assignments.len() == self.assignments.len(),
            forall|i: int|
                #![trigger copy.assignments[i]]
                0 <= i < self.assignments.len() ==> {
                    &&& copy.assignments[i].0@ == self.assignments[i].0@
                    &&& cloned(self.assignments[i].1, copy.assignments[i].1)
                },
            copy.result_schema == self.result_schema,
            copy.plan_properties == self.plan_properties,
    {
        let mut filters: Vec<F> = Vec::new();
        let mut i: usize = 0;
        while i < self.filters.len()
            invariant
                i <= self.filters.len(),
                filters.len() == i,
                forall|k: int|
                    0 <= k < i ==> cloned(#[trigger] self.filters[k], filters[k]),
            decreases self.filters.len() - i,
        {
            filters.push(self.filters[i].clone());
            i = i + 1;
        }
        let mut assignments: Vec<(String, E)> = Vec::new();
        let mut j: usize = 0;
        while j < self.assignments.len()
            invariant
                j <= self.assignments.len(),
                assignments.len() == j,
                forall|k: int|
                    #![trigger assignments[k]]
                    0 <= k < j ==> {
                        &&& assignments[k].0@ == self.assignments[k].0@
                        &&& cloned(self.assignments[k].1, assignments[k].1)
                    },
            decreases self.assignments.len() - j,
        {
            assignments.push((self.assignments[j].0.clone(), self.assignments[j].1.clone()));
            j = j + 1;
        }
        IcebergUpdateWriteExec {
            table: self.table.clone(),
            input: PlanInput {
                plan: self.input.plan.clone(),
                partition_count: self.input.partition_count,
            },
            filters,
            assignments,
            result_schema: self.result_schema.clone(),
            plan_properties: self.plan_properties.clone(),
        }
    }
}

/// The write step of an update at work.
pub struct UpdateWriteRun {
    /// The files that are replaced.
    pub deleted_files: Vec<DataFile>,
    /// What the run has gone through so far.
    pub metrics: UpdateMetrics,
}

/// What reporting the written and the replaced files of an update comes to.
pub open spec fn update_reported(
    data_files: Seq<DataFile>,
    deleted_files: Seq<DataFile>,
    table: TableInfo,
    result: Result<Batch, ExecError>,
) -> bool {
    if unwritable(data_files, table) || unwritable(deleted_files, table) {
        result matches Err(ExecError::Iceberg(_))
    } else {
        exists|new_texts: Seq<Seq<char>>, old_texts: Seq<Seq<char>>|
            {
                &&& #[trigger] written(new_texts, data_files, table)
                &&& #[trigger] written(old_texts, deleted_files, table)
                &&& if utf8_bytes(new_texts) > i32::MAX || utf8_bytes(old_texts) > i32::MAX {
                    result matches Err(ExecError::Overflow(message)) && message@ == too_long()
                } else {
                    result matches Ok(batch) && reports(batch, new_texts, old_texts)
                }
            }
    }
}

impl UpdateWriteRun {
    /// Starts the run, with the files that are to be replaced.
    pub fn start(deleted_files: Vec<DataFile>) -> (run: UpdateWriteRun)
        ensures
            run.deleted_files == deleted_files,
            run.metrics.wf(),
            run.metrics.total_batches == 0,
            run.metrics.total_rows_scanned == 0,
    {
        UpdateWriteRun { deleted_files, metrics: UpdateMetrics::new() }
    }

    /// Takes in what an update made of one batch, and hands on the rows that are to
    /// be written. These are all rows, changed or not.
    pub fn step(&mut self, updated: (Batch, bool)) -> (rows: Batch)
        requires
            old(self).metrics.wf(),
            old(self).metrics.can_count(updated.0.row_count as nat),
        ensures
            rows == updated.0,
            final(self).deleted_files == old(self).deleted_files,
            final(self).metrics.wf(),
            final(self).metrics.total_batches == old(self).metrics.total_batches + 1,
            final(self).metrics.total_rows_scanned == old(self).metrics.total_rows_scanned
                + updated.0.row_count,
            final(self).metrics.batches_with_updates == old(self).metrics.batches_with_updates + (
            if updated.1 {
                1int
            } else {
                0
            }),
            final(self).metrics.total_rows_updated == old(self).metrics.total_rows_updated + (
            if updated.1 {
                updated.0.row_count as int
            } else {
                0
            }),
    {
        let (batch, changed) = updated;
        self.metrics.count(batch.row_count, changed);
        batch
    }

    /// Reports the files that were written and the files that they replace.
    pub fn finish(&self, data_files: &Vec<DataFile>, table: &TableInfo) -> (result: Result<
        Batch,
        ExecError,
    >)
        ensures
            update_reported(data_files@, self.deleted_files@, *table, result),
    {
        let new_texts = match serialize_data_files(data_files, table) {
            Err(error) => {
                return Err(error);
            },
            Ok(new_texts) => new_texts,
        };
        let old_texts = match serialize_data_files(&self.deleted_files, table) {
            Err(error) => {
                return Err(error);
            },
            Ok(old_texts) => old_texts,
        };
        assert(written(texts(new_texts@), data_files@, *table));
        assert(written(texts(old_texts@), self.deleted_files@, *table));
        report(new_texts, old_texts, "Failed to make UPDATE result batch")
    }
}

} // verus!
