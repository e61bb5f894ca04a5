//! MERGE INTO: joining a target with a source and acting on each joined row.
//!
//! The target and the source are joined by a full outer join. What the statement's
//! actions make of the joined rows is kept, batch by batch, and put together at the end.
//! Rows that have only a target stay out, since they do not change.

use std::sync::Arc;

use datafusion::arrow::array::ArrayData;
use datafusion::arrow::datatypes::Schema;
use datafusion::error::DataFusionError;
use iceberg::table::Table;
use vstd::prelude::*;

use crate::assignments::{assigned_names, gives_arrays};
use crate::batch::Batch;
use crate::capacity::{appendable, can_append, plainly_appendable};
use crate::columns::{
    Cell, batches_fit, column_cells, column_fits, column_of_each, concat_batches, concatenated,
    fields_have_arrays, fields_of, holds_value, kept_count, new_empty, schema_fields,
    schema_has_arrays, total_rows, types_agree,
};
use crate::error::ExecError;
use crate::merge_rows::{
    actions_leave_the_source, all_evaluate, all_have_sources, assigned_expressions, classify_rows,
    evaluate_all, filled_columns, has_source, insert_columns, insert_context,
    kept_rows_have_a_source, matched_mask, may_insert, may_update_matched, merged_count,
    not_matched_mask, plain, set_columns, update_columns, update_context,
};
use crate::node::{DisplayFormat, NodeProperties};
use crate::text::{bool_chars, bool_text, texts};

verus! {

/// Physical plan node for MERGE INTO. `P` stands for plans and `E` for expressions.
pub struct IcebergMergeExec<P, E> {
    /// The table that is merged into.
    pub table: Table,
    /// Scans that table; its rows tell which file they are from.
    pub target_scan: P,
    /// Produces the rows that are merged in.
    pub source: P,
    /// Which expression on the target has to equal which one on the source.
    pub join_on: Vec<(E, E)>,
    /// What to set in rows that have both sides, if anything.
    pub matched_update: Option<Vec<(String, E)>>,
    /// What to insert for rows that have only a source, if anything.
    pub not_matched_insert: Option<Vec<E>>,
    /// The schema of the merged rows.
    pub schema: Arc<Schema>,
    /// What a planner has to know.
    pub plan_properties: NodeProperties,
}

/// The node spoken of in plans.
pub open spec fn merge_line(matched: bool, not_matched: bool) -> Seq<char> {
    "IcebergMergeExec: matched="@ + bool_chars(matched) + ", not_matched="@ + bool_chars(
        not_matched,
    )
}

impl<P, E> IcebergMergeExec<P, E> {
    /// The properties go with the schema.
    pub open spec fn wf(self) -> bool {
        self.plan_properties.schema == self.schema && self.plan_properties.partition_count == 1
            && self.plan_properties.emission is Final
            && self.plan_properties.boundedness is Bounded
    }

    /// Makes a merge node.
    pub fn new(
        table: Table,
        target_scan: P,
        source: P,
        join_on: Vec<(E, E)>,
        matched_update: Option<Vec<(String, E)>>,
        not_matched_insert: Option<Vec<E>>,
        schema: Arc<Schema>,
    ) -> (node: Self)
        ensures
            node.wf(),
            node.table == table,
            node.target_scan == target_scan,
            node.source == source,
            node.join_on == join_on,
            node.matched_update == matched_update,
            node.not_matched_insert == not_matched_insert,
            node.schema == schema,
    {
        let plan_properties = Self::compute_properties(schema.clone());
        IcebergMergeExec {
            table,
            target_scan,
            source,
            join_on,
            matched_update,
            not_matched_insert,
            schema,
            plan_properties,
        }
    }

    /// The table that is merged into.
    pub fn table(&self) -> (table: &Table)
        ensures
            *table == self.table,
    {
        &self.table
    }

    /// The scan of that table.
    pub fn target_scan(&self) -> (plan: &P)
        ensures
            *plan == self.target_scan,
    {
        &self.target_scan
    }

    /// The plan of the rows that are merged in.
    pub fn source(&self) -> (plan: &P)
        ensures
            *plan == self.source,
    {
        &self.source
    }

    /// The join conditions.
    pub fn join_on(&self) -> (conditions: &[(E, E)])
        ensures
            conditions@ == self.join_on@,
    {
        self.join_on.as_slice()
    }

    /// A merge hands on its rows at the end, in one partition.
    pub fn compute_properties(schema: Arc<Schema>) -> (properties: NodeProperties)
        ensures
            properties.schema == schema,
            properties.partition_count == 1,
            properties.emission is Final,
            properties.boundedness is Bounded,
    {
        NodeProperties::blocking(schema, 1)
    }

    /// The node's name.
    pub fn name(&self) -> (name: &'static str)
        ensures
            name@ == "IcebergMergeExec"@,
    {
        "IcebergMergeExec"
    }

    /// The plans that the node takes its rows from: the target and the source.
    pub fn children(&self) -> (children: Vec<&P>)
        ensures
            children@ == seq![&self.target_scan, &self.source],
    {
        vec![&self.target_scan, &self.source]
    }

    /// The same node over other plans, of which it takes exactly two.
    pub fn with_new_children(self, children: Vec<P>) -> (result: Result<Self, ExecError>)
        ensures
            match result {
                Ok(node) => {
                    &&& children.len() == 2
                    &&& node.wf()
                    &&& node.target_scan == children[0]
                    &&& node.source == children[1]
                    &&& node.table == self.table
                    &&& node.join_on == self.join_on
                    &&& node.matched_update == self.matched_update
                    &&& node.not_matched_insert == self.not_matched_insert
                    &&& node.schema == self.schema
                },
                Err(ExecError::Plan(message)) => {
                    &&& children.len() != 2
                    &&& message@ == "IcebergMergeExec requires exactly 2 children"@
                },
                Err(_) => false,
            },
    {
        if children.len() != 2 {
            return Err(
                ExecError::Plan("IcebergMergeExec requires exactly 2 children".to_string()),
            );
        }
        let mut children = children;
        let source = children.pop().unwrap();
        let target_scan = children.pop().unwrap();
        Ok(
            Self::new(
                self.table,
                target_scan,
                source,
                self.join_on,
                self.matched_update,
                self.not_matched_insert,
                self.schema,
            ),
        )
    }

    /// How a plan speaks of the node, in every format.
    pub fn fmt_as(&self, _format: DisplayFormat) -> (line: String)
        ensures
            line@ == merge_line(self.matched_update is Some, self.not_matched_insert is Some),
    {
        let mut line = "IcebergMergeExec: matched=".to_string();
        line.append(bool_text(self.matched_update.is_some()));
        line.append(", not_matched=");
        line.append(bool_text(self.not_matched_insert.is_some()));
        line
    }

    /// Starts working on the joined rows.
    pub fn start(self, target_field_count: usize) -> (run: MergeRun<E>)
        ensures
            run.wf(),
            run.target_field_count == target_field_count,
            run.matched_update == self.matched_update,
            run.not_matched_insert == self.not_matched_insert,
            run.schema == self.schema,
            run.result_batches@.len() == 0,
    {
        MergeRun {
            target_field_count,
            matched_update: self.matched_update,
            not_matched_insert: self.not_matched_insert,
            schema: self.schema,
            result_batches: Vec::new(),
        }
    }
}

/// A merge at work: what it has kept of the joined batches so far.
pub struct MergeRun<E> {
    /// How many of the joined columns are the target's.
    pub target_field_count: usize,
    /// What to set in rows that have both sides, if anything.
    pub matched_update: Option<Vec<(String, E)>>,
    /// What to insert for rows that have only a source, if anything.
    pub not_matched_insert: Option<Vec<E>>,
    /// The schema of the merged rows.
    pub schema: Arc<Schema>,
    /// What has been kept.
    pub result_batches: Vec<Batch>,
}

/// A batch that is there, as a list.
pub open spec fn listed(batch: Option<Batch>) -> Seq<Batch> {
    match batch {
        Some(batch) => seq![batch],
        None => Seq::empty(),
    }
}

/// A merge after it has kept further batches.
pub open spec fn keeps<E>(before: MergeRun<E>, after: MergeRun<E>, kept: Seq<Batch>) -> bool {
    &&& after.target_field_count == before.target_field_count
    &&& after.matched_update == before.matched_update
    &&& after.not_matched_insert == before.not_matched_insert
    &&& after.schema == before.schema
    &&& after.result_batches@ == before.result_batches@ + kept
}

/// What taking in a joined batch does to a merge: what becomes of the rows with both
/// sides, and then what becomes of those with only a source, comes after what was kept
/// before. A failure leaves the merge as it was.
pub open spec fn takes_in<E, V: Fn(&E, &Batch) -> Result<ArrayData, DataFusionError>>(
    evaluate: V,
    before: MergeRun<E>,
    after: MergeRun<E>,
    batch: Batch,
    result: Result<(), ExecError>,
) -> bool {
    let count = before.target_field_count as int;
    exists|updated: Result<Option<Batch>, ExecError>|
        {
            &&& #[trigger] may_update_matched(
                evaluate,
                before.matched_update,
                batch,
                count,
                updated,
            )
            &&& match updated {
                Err(error) => result == Err::<(), ExecError>(error) && after == before,
                Ok(first) => exists|inserted: Result<Option<Batch>, ExecError>|
                    {
                        &&& #[trigger] may_insert(
                            evaluate,
                            before.not_matched_insert,
                            batch,
                            count,
                            inserted,
                        )
                        &&& match inserted {
                            Err(error) => result == Err::<(), ExecError>(error) && after == before,
                            Ok(second) => {
                                &&& result is Ok
                                &&& keeps(before, after, listed(first) + listed(second))
                            },
                        }
                    },
            }
        }
}

/// The context of a failure to put the merged rows together.
pub open spec fn concat_context() -> Seq<char> {
    "Failed to concatenate merge result batches"@
}

/// Every row of batches put one after another is a row of one of them, in all columns.
proof fn lemma_row_of_one(batches: Seq<Batch>, width: int, row: int) -> (place: (int, int))
    requires
        forall|k: int|
            0 <= k < batches.len() ==> (#[trigger] batches[k]).wf() && batches[k].columns.len()
                == width,
        0 <= row < total_rows(batches),
    ensures
        0 <= place.0 < batches.len(),
        0 <= place.1 < batches[place.0].row_count,
        forall|i: int|
            0 <= i < width ==> #[trigger] concatenated(batches, i)[row] == column_cells(
                batches[place.0].columns@[i],
            )[place.1],
    decreases batches.len(),
{
    let before = batches.drop_last();
    let last = batches.len() - 1;
    assert forall|k: int| 0 <= k < before.len() implies (#[trigger] before[k]).wf()
        && before[k].columns.len() == width by {
        assert(before[k] == batches[k]);
    }
    assert forall|i: int| 0 <= i < width implies #[trigger] concatenated(before, i).len()
        == total_rows(before) by {
        lemma_concatenated_len(before, width, i);
    }
    assert(batches[last].wf());
    assert forall|i: int| 0 <= i < width implies column_cells(
        #[trigger] batches[last].columns@[i],
    ).len() == batches[last].row_count by {
        assert(column_fits(
            batches[last].field(i),
            batches[last].columns@[i],
            batches[last].row_count as nat,
        ));
    }
    if row < total_rows(before) {
        let place = lemma_row_of_one(before, width, row);
        assert forall|i: int| 0 <= i < width implies #[trigger] concatenated(batches, i)[row]
            == column_cells(batches[place.0].columns@[i])[place.1] by {
            assert(concatenated(before, i).len() == total_rows(before));
            assert(concatenated(before, i)[row] == column_cells(
                before[place.0].columns@[i],
            )[place.1]);
        }
        place
    } else {
        let at = row - total_rows(before);
        assert forall|i: int| 0 <= i < width implies #[trigger] concatenated(batches, i)[row]
            == column_cells(batches[last].columns@[i])[at] by {
            assert(concatenated(before, i).len() == total_rows(before));
        }
        (last, at)
    }
}

/// Batches put one after another have all their rows in each column.
proof fn lemma_concatenated_len(batches: Seq<Batch>, width: int, i: int)
    requires
        forall|k: int|
            0 <= k < batches.len() ==> (#[trigger] batches[k]).wf() && batches[k].columns.len()
                == width,
        0 <= i < width,
    ensures
        concatenated(batches, i).len() == total_rows(batches),
    decreases batches.len(),
{
    if batches.len() > 0 {
        let before = batches.drop_last();
        let last = batches[batches.len() - 1];
        assert forall|k: int| 0 <= k < before.len() implies (#[trigger] before[k]).wf()
            && before[k].columns.len() == width by {
            assert(before[k] == batches[k]);
        }
        lemma_concatenated_len(before, width, i);
        assert(last.wf());
        assert(column_fits(last.field(i), last.columns@[i], last.row_count as nat));
    }
}

/// No row without a source comes out of a merge whose schema has a field for every
/// joined column.
pub proof fn merged_rows_have_a_source<E>(run: MergeRun<E>, merged: Batch)
    requires
        run.wf(),
        run.finished(Ok(merged)),
        forall|k: int|
            0 <= k < run.result_batches.len() ==> (
            #[trigger] run.result_batches[k]).columns.len() == merged.columns.len(),
    ensures
        all_have_sources(merged, run.target_field_count as int),
{
    let count = run.target_field_count as int;
    let width = merged.columns.len() as int;
    let batches = run.result_batches@;
    assert forall|k: int| 0 <= k < batches.len() implies (#[trigger] batches[k]).wf()
        && batches[k].columns.len() == width by {
        assert(run.result_batches[k] == batches[k]);
    }
    assert forall|row: int| 0 <= row < merged.row_count implies #[trigger] has_source(
        merged,
        count,
        row,
    ) by {
        let place = lemma_row_of_one(batches, width, row);
        assert(run.result_batches[place.0] == batches[place.0]);
        assert(all_have_sources(batches[place.0], count));
        assert(has_source(batches[place.0], count, place.1));
        let i = choose|i: int|
            count <= i < batches[place.0].columns.len() && holds_value(
                #[trigger] column_cells(batches[place.0].columns@[i])[place.1],
            );
        assert(concatenated(batches, i)[row] == column_cells(
            batches[place.0].columns@[i],
        )[place.1]);
        assert(column_cells(merged.columns@[i]) == concatenated(batches, i));
        assert(holds_value(column_cells(merged.columns@[i])[row]));
    }
}

/// A further batch adds its rows to the total.
proof fn lemma_total_rows_push(batches: Seq<Batch>, batch: Batch)
    ensures
        total_rows(batches.push(batch)) == total_rows(batches) + batch.row_count,
{
    assert(batches.push(batch).drop_last() =~= batches);
}

/// The first few batches have no more rows than all of them.
proof fn lemma_total_rows_of_prefix(batches: Seq<Batch>, n: int)
    requires
        0 <= n <= batches.len(),
    ensures
        total_rows(batches.take(n)) <= total_rows(batches),
    decreases batches.len() - n,
{
    if n < batches.len() {
        lemma_total_rows_of_prefix(batches, n + 1);
        assert(batches.take(n + 1).drop_last() =~= batches.take(n));
    } else {
        assert(batches.take(n) =~= batches);
    }
}

/// The refusal of rows that may not fit into one batch.
pub open spec fn unclear_size() -> Seq<char> {
    "The merged rows may not fit into one batch"@
}

fn too_large() -> (error: ExecError)
    ensures
        error matches ExecError::Overflow(message) && message@ == unclear_size(),
{
    ExecError::Overflow("The merged rows may not fit into one batch".to_string())
}

/// The refusal to make columns that Arrow has no array for.
pub open spec fn no_array() -> Seq<char> {
    "Arrow has no array for a field of the merged rows"@
}

impl<E> MergeRun<E> {
    /// What has been kept are batches, and every row of them has a source.
    pub open spec fn wf(self) -> bool {
        forall|k: int|
            0 <= k < self.result_batches.len() ==> {
                &&& (#[trigger] self.result_batches[k]).wf()
                &&& all_have_sources(self.result_batches[k], self.target_field_count as int)
            }
    }

    /// Every batch that was kept has a column for each field of the schema, and the
    /// rows can be counted.
    pub open spec fn enough_columns(self) -> bool {
        &&& total_rows(self.result_batches@) <= usize::MAX
        &&& forall|k: int|
            0 <= k < self.result_batches.len() ==> schema_fields(*self.schema).len() <= (
            #[trigger] self.result_batches[k]).columns.len()
    }

    /// The merged rows can be put together under the schema without a column
    /// outgrowing its type. Where nothing was kept, columns without rows can be made.
    pub open spec fn can_finish(self) -> bool {
        if self.result_batches.len() == 0 {
            fields_have_arrays(*self.schema)
        } else {
            &&& self.enough_columns()
            &&& forall|i: int|
                #![trigger column_of_each(self.result_batches@, i)]
                0 <= i < schema_fields(*self.schema).len() && types_agree(
                    column_of_each(self.result_batches@, i),
                ) ==> appendable(column_of_each(self.result_batches@, i))
        }
    }

    /// It is easy to see that the merged rows can be put together.
    pub open spec fn plainly_can_finish(self) -> bool {
        if self.result_batches.len() == 0 {
            fields_have_arrays(*self.schema)
        } else {
            &&& self.enough_columns()
            &&& forall|i: int|
                0 <= i < schema_fields(*self.schema).len() ==> plainly_appendable(
                    #[trigger] column_of_each(self.result_batches@, i),
                )
        }
    }

    /// What the merged rows come to.
    pub open spec fn finished(self, result: Result<Batch, ExecError>) -> bool {
        match result {
            Ok(batch) => {
                &&& batches_fit(*self.schema, self.result_batches@)
                &&& batch.wf()
                &&& batch.schema == self.schema
                &&& batch.row_count == total_rows(self.result_batches@)
                &&& forall|i: int|
                    0 <= i < batch.columns.len() ==> column_cells(#[trigger] batch.columns@[i])
                        == concatenated(self.result_batches@, i)
            },
            Err(ExecError::Arrow { context: Some(context), .. }) => {
                &&& !batches_fit(*self.schema, self.result_batches@)
                &&& context@ == concat_context()
            },
            Err(_) => false,
        }
    }

    /// Acts on the rows with both sides.
    fn update_matched<V: Fn(&E, &Batch) -> Result<ArrayData, DataFusionError>>(
        &self,
        batch: &Batch,
        mask: Vec<bool>,
        evaluate: &V,
    ) -> (result: Result<Option<Batch>, ExecError>)
        requires
            batch.wf(),
            batch.copyable(),
            self.target_field_count <= batch.columns.len(),
            mask@ == matched_mask(*batch, self.target_field_count as int),
            forall|expression: &E, input: &Batch| evaluate.requires((expression, input)),
            gives_arrays(*evaluate),
        ensures
            may_update_matched(
                *evaluate,
                self.matched_update,
                *batch,
                self.target_field_count as int,
                result,
            ),
            result matches Ok(Some(changed)) ==> {
                &&& changed.wf()
                &&& changed.row_count == kept_count(mask@)
                &&& changed.row_count > 0
                &&& all_have_sources(changed, self.target_field_count as int)
            },
    {
        let ghost kept_rows = mask@;
        let ghost count = self.target_field_count as int;
        let assignments = match &self.matched_update {
            None => {
                return Ok(None);
            },
            Some(assignments) => assignments,
        };
        let rows = match batch.select(mask) {
            Err(error) => {
                return Err(error);
            },
            Ok(rows) => rows,
        };
        if rows.row_count == 0 {
            return Ok(None);
        }
        let mut names: Vec<String> = Vec::new();
        let mut expressions: Vec<&E> = Vec::new();
        let mut k: usize = 0;
        while k < assignments.len()
            invariant
                k <= assignments.len(),
                names.len() == k,
                expressions.len() == k,
                forall|j: int| 0 <= j < k ==> (#[trigger] names[j])@ == assignments[j].0@,
                forall|j: int| 0 <= j < k ==> *(#[trigger] expressions[j]) == assignments[j].1,
            decreases assignments.len() - k,
        {
            names.push(assignments[k].0.clone());
            expressions.push(&assignments[k].1);
            k = k + 1;
        }
        assert(texts(names@) =~= assigned_names(assignments@));
        let ghost all = plain(expressions@);
        assert(all =~= assigned_expressions(assignments@));
        match evaluate_all(evaluate, &expressions, &rows) {
            Err(error) => {
                let ghost outcome: Result<Seq<ArrayData>, DataFusionError> = Err(error);
                assert(all_evaluate(*evaluate, all, rows, outcome));
                Err(ExecError::DataFusion(error))
            },
            Ok(values) => {
                let ghost outcome: Result<Seq<ArrayData>, DataFusionError> = Ok(values@);
                assert(all_evaluate(*evaluate, all, rows, outcome));
                match update_columns(&rows, self.target_field_count, &names, &values) {
                    Err(error) => Err(error),
                    Ok(changed) => {
                        proof {
                            kept_rows_have_a_source(rows, *batch, count, kept_rows);
                            actions_leave_the_source(
                                changed,
                                rows,
                                count,
                                set_columns(rows, count, texts(names@), values@),
                                update_context(),
                            );
                        }
                        Ok(Some(changed))
                    },
                }
            },
        }
    }

    /// Acts on the rows with only a source.
    fn insert_not_matched<V: Fn(&E, &Batch) -> Result<ArrayData, DataFusionError>>(
        &self,
        batch: &Batch,
        mask: Vec<bool>,
        evaluate: &V,
    ) -> (result: Result<Option<Batch>, ExecError>)
        requires
            batch.wf(),
            batch.copyable(),
            self.target_field_count <= batch.columns.len(),
            mask@ == not_matched_mask(*batch, self.target_field_count as int),
            forall|expression: &E, input: &Batch| evaluate.requires((expression, input)),
            gives_arrays(*evaluate),
        ensures
            may_insert(
                *evaluate,
                self.not_matched_insert,
                *batch,
                self.target_field_count as int,
                result,
            ),
            result matches Ok(Some(changed)) ==> {
                &&& changed.wf()
                &&& changed.row_count == kept_count(mask@)
                &&& changed.row_count > 0
                &&& all_have_sources(changed, self.target_field_count as int)
            },
    {
        let ghost kept_rows = mask@;
        let ghost count = self.target_field_count as int;
        let inserts = match &self.not_matched_insert {
            None => {
                return Ok(None);
            },
            Some(inserts) => inserts,
        };
        let rows = match batch.select(mask) {
            Err(error) => {
                return Err(error);
            },
            Ok(rows) => rows,
        };
        if rows.row_count == 0 {
            return Ok(None);
        }
        let mut expressions: Vec<&E> = Vec::new();
        let mut k: usize = 0;
        while k < inserts.len()
            invariant
                k <= inserts.len(),
                expressions.len() == k,
                forall|j: int| 0 <= j < k ==> *(#[trigger] expressions[j]) == inserts[j],
            decreases inserts.len() - k,
        {
            expressions.push(&inserts[k]);
            k = k + 1;
        }
        let ghost all = plain(expressions@);
        assert(all =~= inserts@);
        match evaluate_all(evaluate, &expressions, &rows) {
            Err(error) => {
                let ghost outcome: Result<Seq<ArrayData>, DataFusionError> = Err(error);
                assert(all_evaluate(*evaluate, all, rows, outcome));
                Err(ExecError::DataFusion(error))
            },
            Ok(values) => {
                let ghost outcome: Result<Seq<ArrayData>, DataFusionError> = Ok(values@);
                assert(all_evaluate(*evaluate, all, rows, outcome));
                match insert_columns(&rows, self.target_field_count, &values) {
                    Err(error) => Err(error),
                    Ok(changed) => {
                        proof {
                            kept_rows_have_a_source(rows, *batch, count, kept_rows);
                            actions_leave_the_source(
                                changed,
                                rows,
                                count,
                                filled_columns(rows, values@),
                                insert_context(),
                            );
                        }
                        Ok(Some(changed))
                    },
                }
            },
        }
    }

    /// Takes in one batch of joined rows. The assignments are evaluated on the rows
    /// with both sides, and the insert expressions on those with only a source.
    pub fn add<V: Fn(&E, &Batch) -> Result<ArrayData, DataFusionError>>(
        &mut self,
        batch: &Batch,
        evaluate: V,
    ) -> (result: Result<(), ExecError>)
        requires
            old(self).wf(),
            batch.wf(),
            batch.copyable(),
            old(self).target_field_count < batch.columns.len(),
            forall|expression: &E, input: &Batch| evaluate.requires((expression, input)),
            gives_arrays(evaluate),
        ensures
            final(self).wf(),
            takes_in(evaluate, *old(self), *final(self), *batch, result),
            result is Ok ==> total_rows(final(self).result_batches@) == total_rows(
                old(self).result_batches@,
            ) + merged_count(
                *batch,
                old(self).target_field_count as int,
                old(self).matched_update is Some,
                old(self).not_matched_insert is Some,
            ),
    {
        let ghost before = self.result_batches@;
        let (matched, not_matched) = classify_rows(batch, self.target_field_count);
        let updated = self.update_matched(batch, matched, &evaluate);
        let ghost count = self.target_field_count as int;
        assert(may_update_matched(evaluate, self.matched_update, *batch, count, updated));
        let first = match updated {
            Err(error) => {
                return Err(error);
            },
            Ok(first) => first,
        };
        let inserted = self.insert_not_matched(batch, not_matched, &evaluate);
        assert(may_insert(evaluate, self.not_matched_insert, *batch, count, inserted));
        let second = match inserted {
            Err(error) => {
                return Err(error);
            },
            Ok(second) => second,
        };
        let ghost first_kept = listed(first);
        let ghost second_kept = listed(second);
        if let Some(rows) = first {
            proof {
                lemma_total_rows_push(before, rows);
            }
            self.result_batches.push(rows);
        }
        assert(self.result_batches@ =~= before + first_kept);
        if let Some(rows) = second {
            proof {
                lemma_total_rows_push(self.result_batches@, rows);
            }
            self.result_batches.push(rows);
        }
        assert(self.result_batches@ =~= before + (first_kept + second_kept));
        Ok(())
    }

    /// Takes in one batch of joined rows where it is easy to see that its rows can be
    /// copied, and says so where it is not.
    pub fn add_plainly<V: Fn(&E, &Batch) -> Result<ArrayData, DataFusionError>>(
        &mut self,
        batch: &Batch,
        evaluate: V,
    ) -> (result: Result<(), ExecError>)
        requires
            old(self).wf(),
            batch.wf(),
            old(self).target_field_count < batch.columns.len(),
            forall|expression: &E, input: &Batch| evaluate.requires((expression, input)),
            gives_arrays(evaluate),
        ensures
            final(self).wf(),
            if batch.plainly_copyable() {
                takes_in(evaluate, *old(self), *final(self), *batch, result)
            } else {
                &&& *final(self) == *old(self)
                &&& result matches Err(ExecError::Overflow(message)) && message@ == unclear_size()
            },
    {
        if !batch.is_plainly_copyable() {
            return Err(too_large());
        }
        self.add(batch, evaluate)
    }

    /// Puts the merged rows together. Where nothing was kept, that is a batch
    /// without rows.
    pub fn finish(self) -> (result: Result<Batch, ExecError>)
        requires
            self.wf(),
            self.can_finish(),
        ensures
            self.finished(result),
    {
        if self.result_batches.len() == 0 {
            let batch = new_empty(self.schema.clone());
            assert forall|i: int| 0 <= i < batch.columns.len() implies column_cells(
                #[trigger] batch.columns@[i],
            ) == concatenated(self.result_batches@, i) by {
                assert(column_cells(batch.columns@[i]) =~= Seq::<Cell>::empty());
            }
            return Ok(batch);
        }
        match concat_batches(&self.schema, &self.result_batches) {
            Ok(batch) => Ok(batch),
            Err(error) => {
                let context = Some("Failed to concatenate merge result batches".to_string());
                Err(ExecError::Arrow { error, context })
            },
        }
    }

    /// Checks that every batch that was kept has enough columns, and that the rows
    /// can be counted.
    pub fn has_enough_columns(&self) -> (enough: bool)
        ensures
            enough == self.enough_columns(),
    {
        let field_count: usize = fields_of(&self.schema).len();
        let mut total: usize = 0;
        let mut k: usize = 0;
        while k < self.result_batches.len()
            invariant
                k <= self.result_batches.len(),
                field_count == schema_fields(*self.schema).len(),
                total == total_rows(self.result_batches@.take(k as int)),
                forall|j: int|
                    0 <= j < k ==> field_count <= (#[trigger] self.result_batches[j]).columns.len(),
            decreases self.result_batches.len() - k,
        {
            let batch = &self.result_batches[k];
            proof {
                let next = self.result_batches@.take(k + 1);
                assert(next.drop_last() =~= self.result_batches@.take(k as int));
                lemma_total_rows_of_prefix(self.result_batches@, k + 1);
            }
            if batch.columns.len() < field_count || batch.row_count > usize::MAX - total {
                return false;
            }
            total = total + batch.row_count;
            k = k + 1;
        }
        assert(self.result_batches@.take(k as int) =~= self.result_batches@);
        true
    }

    /// One column of every batch that was kept.
    fn column_of_each(&self, i: usize) -> (columns: Vec<&ArrayData>)
        requires
            forall|k: int|
                0 <= k < self.result_batches.len() ==> i < (
                #[trigger] self.result_batches[k]).columns.len(),
        ensures
            columns@.map_values(|column: &ArrayData| *column) == column_of_each(
                self.result_batches@,
                i as int,
            ),
    {
        let mut columns: Vec<&ArrayData> = Vec::new();
        let mut k: usize = 0;
        while k < self.result_batches.len()
            invariant
                k <= self.result_batches.len(),
                columns.len() == k,
                forall|j: int|
                    0 <= j < self.result_batches.len() ==> i < (
                    #[trigger] self.result_batches[j]).columns.len(),
                forall|j: int|
                    0 <= j < k ==> *(#[trigger] columns[j])
                        == self.result_batches[j].columns[i as int],
            decreases self.result_batches.len() - k,
        {
            columns.push(&self.result_batches[k].columns[i]);
            k = k + 1;
        }
        assert(columns@.map_values(|column: &ArrayData| *column) =~= column_of_each(
            self.result_batches@,
            i as int,
        ));
        columns
    }

    /// Puts the merged rows together where it is easy to see that they can be, and
    /// says so where it is not.
    pub fn finish_plainly(self) -> (result: Result<Batch, ExecError>)
        requires
            self.wf(),
        ensures
            if self.plainly_can_finish() {
                self.finished(result)
            } else if self.result_batches.len() == 0 {
                result matches Err(ExecError::Internal(message)) && message@ == no_array()
            } else {
                result matches Err(ExecError::Overflow(message)) && message@ == unclear_size()
            },
    {
        if self.result_batches.len() == 0 {
            if !schema_has_arrays(&self.schema) {
                let message = "Arrow has no array for a field of the merged rows";
                return Err(ExecError::Internal(message.to_string()));
            }
        } else {
            if !self.has_enough_columns() {
                return Err(too_large());
            }
            let field_count: usize = fields_of(&self.schema).len();
            let mut i: usize = 0;
            while i < field_count
                invariant
                    i <= field_count,
                    field_count == schema_fields(*self.schema).len(),
                    self.result_batches.len() > 0,
                    self.enough_columns(),
                    forall|j: int|
                        0 <= j < i ==> plainly_appendable(
                            #[trigger] column_of_each(self.result_batches@, j),
                        ),
                decreases field_count - i,
            {
                let columns = self.column_of_each(i);
                if !can_append(&columns) {
                    return Err(too_large());
                }
                i = i + 1;
            }
        }
        self.finish()
    }
}

} // verus!
