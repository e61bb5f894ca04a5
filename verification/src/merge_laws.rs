//! What a MERGE promises, in terms of the joined rows that go in and the rows that come
//! out.

use datafusion::arrow::array::ArrayData;
use datafusion::error::DataFusionError;
use vstd::prelude::*;

use crate::assignments::{assigned_names, evaluates, no_such_column};
use crate::batch::{Batch, last_named, lemma_last_named, selects};
use crate::columns::{
    Cell, batches_fit, column_cells, column_fits, column_type, concatenated, field_info,
    holds_value, kept, kept_count, same_column, schema_fields, total_rows,
};
use crate::error::ExecError;
use crate::merge::{MergeRun, keeps, listed, takes_in};
use crate::merge_rows::{
    all_evaluate, assigned_expressions, fails_after, filled_columns, has_source, has_target,
    insert_context, inserted_with, matched_mask, may_insert, may_update_matched, not_matched_mask,
    put_together, set_columns, target_names, update_context, updated_with, with_columns,
};
use crate::update_laws::{label, last_to, none_to};

verus! {

/// A cell without a value.
pub open spec fn is_null(cell: Cell) -> bool {
    cell is Null || cell is HiddenNull
}

/// All columns from one place up to another are null in a row.
pub open spec fn all_null(batch: Batch, from: int, to: int, row: int) -> bool {
    forall|i: int| from <= i < to ==> is_null(#[trigger] column_cells(batch.columns@[i])[row])
}

/// One of the first columns has a name.
pub open spec fn is_label(batch: Batch, count: int, name: Seq<char>) -> bool {
    exists|i: int| 0 <= i < count && #[trigger] label(batch, i) == name
}

/// The rows of a joined batch in which neither side is all null.
pub open spec fn joins_both(batch: Batch, target_field_count: int, row: int) -> bool {
    &&& !all_null(batch, 0, target_field_count, row)
    &&& !all_null(batch, target_field_count, batch.columns.len() as int, row)
}

/// The rows of a joined batch in which the target is all null, and the source is not.
pub open spec fn lacks_target(batch: Batch, target_field_count: int, row: int) -> bool {
    &&& all_null(batch, 0, target_field_count, row)
    &&& !all_null(batch, target_field_count, batch.columns.len() as int, row)
}

/// A joined row is matched if its target is not all null and its source is not all null. It
/// is not matched if its target is all null and its source is not. Every column counts,
/// from the first one of a side to the last one, however many there are.
pub proof fn rows_are_told_apart_by_their_nulls(batch: Batch, target_field_count: int, row: int)
    requires
        0 <= row < batch.row_count,
        0 <= target_field_count <= batch.columns.len(),
    ensures
        matched_mask(batch, target_field_count).len() == batch.row_count,
        not_matched_mask(batch, target_field_count).len() == batch.row_count,
        matched_mask(batch, target_field_count)[row] <==> (exists|i: int|
            0 <= i < target_field_count && !is_null(
                #[trigger] column_cells(batch.columns@[i])[row],
            )) && (exists|i: int|
            target_field_count <= i < batch.columns.len() && !is_null(
                #[trigger] column_cells(batch.columns@[i])[row],
            )),
        not_matched_mask(batch, target_field_count)[row] <==> (forall|i: int|
            0 <= i < target_field_count ==> is_null(
                #[trigger] column_cells(batch.columns@[i])[row],
            )) && (exists|i: int|
            target_field_count <= i < batch.columns.len() && !is_null(
                #[trigger] column_cells(batch.columns@[i])[row],
            )),
{
    let count = target_field_count;
    let width = batch.columns.len() as int;
    assert(has_target(batch, count, row) <==> exists|i: int|
        0 <= i < count && !is_null(#[trigger] column_cells(batch.columns@[i])[row])) by {
        if has_target(batch, count, row) {
            let i = choose|i: int|
                0 <= i < count && holds_value(
                    #[trigger] column_cells(batch.columns@[i])[row],
                );
            assert(!is_null(column_cells(batch.columns@[i])[row]));
        }
    }
    assert(has_source(batch, count, row) <==> exists|i: int|
        count <= i < width && !is_null(#[trigger] column_cells(batch.columns@[i])[row])) by {
        if has_source(batch, count, row) {
            let i = choose|i: int|
                count <= i < width && holds_value(
                    #[trigger] column_cells(batch.columns@[i])[row],
                );
            assert(!is_null(column_cells(batch.columns@[i])[row]));
        }
    }
}

/// Which rows have both sides, and which only a source.
proof fn lemma_classes(batch: Batch, target_field_count: int)
    requires
        0 <= target_field_count <= batch.columns.len(),
    ensures
        matched_mask(batch, target_field_count).len() == batch.row_count,
        not_matched_mask(batch, target_field_count).len() == batch.row_count,
        forall|row: int|
            0 <= row < batch.row_count ==> #[trigger] matched_mask(batch, target_field_count)[row]
                == joins_both(batch, target_field_count, row),
        forall|row: int|
            0 <= row < batch.row_count ==> #[trigger] not_matched_mask(
                batch,
                target_field_count,
            )[row] == lacks_target(batch, target_field_count, row),
{
    assert forall|row: int| 0 <= row < batch.row_count implies {
        &&& #[trigger] matched_mask(batch, target_field_count)[row] == joins_both(
            batch,
            target_field_count,
            row,
        )
    } by {
        rows_are_told_apart_by_their_nulls(batch, target_field_count, row);
    }
    assert forall|row: int| 0 <= row < batch.row_count implies {
        &&& #[trigger] not_matched_mask(batch, target_field_count)[row] == lacks_target(
            batch,
            target_field_count,
            row,
        )
    } by {
        rows_are_told_apart_by_their_nulls(batch, target_field_count, row);
    }
}

/// The places at which a mask says true, in order.
pub open spec fn places(mask: Seq<bool>) -> Seq<int>
    decreases mask.len(),
{
    if mask.len() == 0 {
        Seq::empty()
    } else if mask.last() {
        places(mask.drop_last()).push(mask.len() - 1)
    } else {
        places(mask.drop_last())
    }
}

/// A list of places is in order, and holds exactly the places that are wanted.
pub open spec fn lists(list: Seq<int>, count: int, wanted: spec_fn(int) -> bool) -> bool {
    &&& forall|a: int, b: int| 0 <= a < b < list.len() ==> #[trigger] list[a] < #[trigger] list[b]
    &&& forall|a: int|
        0 <= a < list.len() ==> 0 <= #[trigger] list[a] < count && wanted(list[a])
    &&& forall|place: int| 0 <= place < count && #[trigger] wanted(place) ==> list.contains(place)
}

/// A mask keeps the rows for which it says true, all of them and in order.
pub proof fn masks_keep_rows_in_order<T>(rows: Seq<T>, mask: Seq<bool>)
    requires
        rows.len() == mask.len(),
    ensures
        lists(places(mask), mask.len() as int, |place: int| mask[place]),
        kept(rows, mask).len() == places(mask).len(),
        kept_count(mask) == places(mask).len(),
        forall|k: int|
            0 <= k < places(mask).len() ==> #[trigger] kept(rows, mask)[k] == rows[places(mask)[k]],
    decreases rows.len(),
{
    let list = places(mask);
    let wanted = |place: int| mask[place];
    if rows.len() > 0 {
        let fewer = mask.drop_last();
        let before = places(fewer);
        let fewer_wanted = |place: int| fewer[place];
        masks_keep_rows_in_order(rows.drop_last(), fewer);
        assert forall|a: int| 0 <= a < list.len() implies 0 <= #[trigger] list[a] < mask.len()
            && wanted(list[a]) by {
            if a < before.len() {
                assert(list[a] == before[a]);
                assert(fewer_wanted(before[a]));
            }
        }
        assert forall|a: int, b: int| 0 <= a < b < list.len() implies #[trigger] list[a]
            < #[trigger] list[b] by {
            assert(list[a] == before[a]);
            if b < before.len() {
                assert(list[b] == before[b]);
            }
        }
        assert forall|place: int| 0 <= place < mask.len() && #[trigger] wanted(
            place,
        ) implies list.contains(place) by {
            if place == mask.len() - 1 {
                assert(list[list.len() - 1] == place);
            } else {
                assert(fewer_wanted(place));
                let a = choose|a: int| 0 <= a < before.len() && before[a] == place;
                assert(list[a] == place);
            }
        }
        assert forall|k: int| 0 <= k < list.len() implies #[trigger] kept(rows, mask)[k]
            == rows[list[k]] by {
            if k < before.len() {
                assert(kept(rows.drop_last(), fewer)[k] == rows.drop_last()[before[k]]);
                assert(list[k] == before[k]);
            }
        }
    }
}

/// What a mask keeps of a batch: in every column the rows for which it says true.
pub proof fn selections_keep_rows_in_order(selection: Batch, batch: Batch, mask: Seq<bool>)
    requires
        batch.wf(),
        mask.len() == batch.row_count,
        selects(selection, batch, mask),
    ensures
        lists(places(mask), mask.len() as int, |place: int| mask[place]),
        selection.schema == batch.schema,
        selection.row_count == places(mask).len(),
        selection.columns.len() == batch.columns.len(),
        forall|i: int|
            0 <= i < batch.columns.len() ==> {
                &&& column_type(#[trigger] selection.columns@[i]) == column_type(batch.columns@[i])
                &&& column_cells(selection.columns@[i]).len() == selection.row_count
            },
        forall|i: int, row: int|
            #![trigger column_cells(selection.columns@[i])[row]]
            0 <= i < batch.columns.len() && 0 <= row < selection.row_count ==> column_cells(
                selection.columns@[i],
            )[row] == column_cells(batch.columns@[i])[places(mask)[row]],
{
    masks_keep_rows_in_order(mask, mask);
    assert forall|i: int| 0 <= i < batch.columns.len() implies {
        &&& column_type(#[trigger] selection.columns@[i]) == column_type(batch.columns@[i])
        &&& column_cells(selection.columns@[i]).len() == selection.row_count
    } by {
        assert(column_fits(batch.field(i), batch.columns@[i], batch.row_count as nat));
        masks_keep_rows_in_order(column_cells(batch.columns@[i]), mask);
    }
    assert forall|i: int, row: int|
        #![trigger column_cells(selection.columns@[i])[row]]
        0 <= i < batch.columns.len() && 0 <= row < selection.row_count implies column_cells(
        selection.columns@[i],
    )[row] == column_cells(batch.columns@[i])[places(mask)[row]] by {
        assert(column_fits(batch.field(i), batch.columns@[i], batch.row_count as nat));
        masks_keep_rows_in_order(column_cells(batch.columns@[i]), mask);
        assert(column_cells(selection.columns@[i]) == kept(column_cells(batch.columns@[i]), mask));
    }
}

/// The rows of a batch at some places are those of another batch.
pub open spec fn takes_rows(selection: Batch, batch: Batch, list: Seq<int>) -> bool {
    &&& selection.schema == batch.schema
    &&& selection.row_count == list.len()
    &&& selection.columns.len() == batch.columns.len()
    &&& forall|i: int|
        0 <= i < batch.columns.len() ==> column_cells(#[trigger] selection.columns@[i]).len()
            == list.len()
    &&& forall|i: int, row: int|
        #![trigger column_cells(selection.columns@[i])[row]]
        0 <= i < batch.columns.len() && 0 <= row < list.len() ==> column_cells(
            selection.columns@[i],
        )[row] == column_cells(batch.columns@[i])[list[row]]
}

/// Setting columns of the target: each column of the target that is assigned to has the
/// value of the last assignment to its name, in every row. All other columns, among them
/// those of the source, are as they were.
proof fn lemma_set_rows<E>(
    changed: Batch,
    rows: Batch,
    target_field_count: int,
    assignments: Seq<(String, E)>,
    values: Seq<ArrayData>,
)
    requires
        rows.wf(),
        0 <= target_field_count <= rows.columns.len(),
        updated_with(
            rows,
            target_field_count,
            assigned_names(assignments),
            values,
            Ok(changed),
        ),
    ensures
        changed.schema == rows.schema,
        changed.row_count == rows.row_count,
        changed.columns.len() == rows.columns.len(),
        forall|k: int|
            0 <= k < assignments.len() ==> is_label(
                rows,
                target_field_count,
                (#[trigger] assignments[k]).0@,
            ),
        forall|i: int|
            0 <= i < rows.columns.len() ==> column_cells(#[trigger] changed.columns@[i]).len()
                == rows.row_count,
        forall|i: int, row: int, k: int|
            #![trigger column_cells(changed.columns@[i])[row], values[k]]
            0 <= i < target_field_count && 0 <= row < rows.row_count && last_to(
                assignments,
                k,
                label(rows, i),
            ) ==> column_cells(changed.columns@[i])[row] == column_cells(values[k])[row],
        forall|i: int, row: int|
            #![trigger column_cells(changed.columns@[i])[row]]
            0 <= i < rows.columns.len() && 0 <= row < rows.row_count && (i >= target_field_count
                || none_to(assignments, label(rows, i))) ==> column_cells(
                changed.columns@[i],
            )[row] == column_cells(rows.columns@[i])[row],
{
    let names = assigned_names(assignments);
    let known = target_names(rows, target_field_count);
    let new = set_columns(rows, target_field_count, names, values);
    let wanted = with_columns(rows.columns@, new);
    assert(rows.names().len() == rows.columns.len());
    if exists|k: int| 0 <= k < names.len() && !known.contains(#[trigger] names[k]) {
        assert(false);
    }
    assert(put_together(
        rows,
        new,
        update_context(),
        Ok(changed),
    ));
    assert forall|k: int| 0 <= k < assignments.len() implies is_label(
        rows,
        target_field_count,
        (#[trigger] assignments[k]).0@,
    ) by {
        assert(known.contains(names[k]));
        let i = choose|i: int| 0 <= i < known.len() && known[i] == names[k];
        assert(label(rows, i) == assignments[k].0@);
    }
    assert forall|i: int| 0 <= i < rows.columns.len() implies {
        &&& same_column(#[trigger] changed.columns@[i], wanted[i])
        &&& column_cells(changed.columns@[i]).len() == rows.row_count
        &&& label(rows, i) == rows.names()[i]
    } by {
        assert(column_fits(changed.field(i), changed.columns@[i], changed.row_count as nat));
    }
    assert forall|i: int, row: int, k: int|
        #![trigger column_cells(changed.columns@[i])[row], values[k]]
        0 <= i < target_field_count && 0 <= row < rows.row_count && last_to(
            assignments,
            k,
            label(rows, i),
        ) implies column_cells(changed.columns@[i])[row] == column_cells(values[k])[row] by {
        lemma_last_named(names, rows.names()[i]);
        lemma_last_place(assignments, label(rows, i), k);
        assert(same_column(changed.columns@[i], wanted[i]));
    }
    assert forall|i: int, row: int|
        #![trigger column_cells(changed.columns@[i])[row]]
        0 <= i < rows.columns.len() && 0 <= row < rows.row_count && (i >= target_field_count
            || none_to(assignments, label(rows, i))) implies column_cells(
        changed.columns@[i],
    )[row] == column_cells(rows.columns@[i])[row] by {
        lemma_last_named(names, rows.names()[i]);
        if let Some(k) = last_named(names, rows.names()[i]) {
            assert(names[k] == assignments[k].0@);
        }
        assert(same_column(changed.columns@[i], wanted[i]));
    }
}

/// The last assignment to a name is at the last place of the name.
proof fn lemma_last_place<E>(assignments: Seq<(String, E)>, name: Seq<char>, k: int)
    requires
        last_to(assignments, k, name),
    ensures
        last_named(assigned_names(assignments), name) == Some(k),
{
    let names = assigned_names(assignments);
    lemma_last_named(names, name);
    assert(names[k] == assignments[k].0@);
    assert(names.contains(name));
    let at = last_named(names, name)->Some_0;
    assert(names[at] == assignments[at].0@);
}

/// MERGE, WHEN MATCHED: of a joined batch the rows with both sides are kept, all of them
/// and in order. The assignments are evaluated on these rows. Each column of the target has
/// the value of the last assignment to its name; the other columns stay as they were
/// joined.
pub proof fn matched_rows_are_updated<E, V: Fn(&E, &Batch) -> Result<ArrayData, DataFusionError>>(
    evaluate: V,
    assignments: Vec<(String, E)>,
    batch: Batch,
    target_field_count: int,
    changed: Batch,
) -> (evaluated: (Batch, Seq<int>, Seq<ArrayData>))
    requires
        batch.wf(),
        0 <= target_field_count <= batch.columns.len(),
        may_update_matched(
            evaluate,
            Some(assignments),
            batch,
            target_field_count,
            Ok(Some(changed)),
        ),
    ensures
        lists(
            evaluated.1,
            batch.row_count as int,
            |row: int| joins_both(batch, target_field_count, row),
        ),
        takes_rows(evaluated.0, batch, evaluated.1),
        evaluated.2.len() == assignments.len(),
        forall|k: int|
            0 <= k < assignments.len() ==> evaluate.ensures(
                (&assignments@[k].1, &evaluated.0),
                Ok(#[trigger] evaluated.2[k]),
            ),
        forall|k: int|
            0 <= k < assignments.len() ==> is_label(
                batch,
                target_field_count,
                (#[trigger] assignments@[k]).0@,
            ),
        changed.schema == batch.schema,
        changed.row_count == evaluated.1.len(),
        changed.columns.len() == batch.columns.len(),
        forall|i: int, row: int, k: int|
            #![trigger column_cells(changed.columns@[i])[row], evaluated.2[k]]
            0 <= i < target_field_count && 0 <= row < changed.row_count && last_to(
                assignments@,
                k,
                label(batch, i),
            ) ==> column_cells(changed.columns@[i])[row] == column_cells(evaluated.2[k])[row],
        forall|i: int, row: int|
            #![trigger column_cells(changed.columns@[i])[row]]
            0 <= i < batch.columns.len() && 0 <= row < changed.row_count && (i
                >= target_field_count || none_to(assignments@, label(batch, i))) ==> column_cells(
                changed.columns@[i],
            )[row] == column_cells(batch.columns@[i])[evaluated.1[row]],
{
    let mask = matched_mask(batch, target_field_count);
    let result: Result<Option<Batch>, ExecError> = Ok(Some(changed));
    let expressions = assigned_expressions(assignments@);
    let (rows, outcome) = choose|rows: Batch, outcome: Result<Seq<ArrayData>, DataFusionError>|
        {
            &&& rows.wf()
            &&& selects(rows, batch, mask)
            &&& #[trigger] all_evaluate(evaluate, expressions, rows, outcome)
            &&& match (outcome, result) {
                (Err(error), _) => result == Err::<Option<Batch>, ExecError>(
                    ExecError::DataFusion(error),
                ),
                (Ok(values), Ok(Some(changed))) => updated_with(
                    rows,
                    target_field_count,
                    assigned_names(assignments@),
                    values,
                    Ok(changed),
                ),
                (Ok(values), Err(error)) => updated_with(
                    rows,
                    target_field_count,
                    assigned_names(assignments@),
                    values,
                    Err(error),
                ),
                _ => false,
            }
        };
    let values = outcome->Ok_0;
    lemma_classes(batch, target_field_count);
    selections_keep_rows_in_order(rows, batch, mask);
    lemma_lists_class(
        mask,
        batch.row_count as int,
        |row: int| joins_both(batch, target_field_count, row),
    );
    lemma_set_rows(changed, rows, target_field_count, assignments@, values);
    assert forall|i: int| 0 <= i < batch.columns.len() implies #[trigger] label(rows, i) == label(
        batch,
        i,
    ) by {}
    assert forall|k: int| 0 <= k < assignments.len() implies is_label(
        batch,
        target_field_count,
        (#[trigger] assignments@[k]).0@,
    ) by {
        assert(is_label(rows, target_field_count, assignments@[k].0@));
        let i = choose|i: int|
            0 <= i < target_field_count && #[trigger] label(rows, i) == assignments@[k].0@;
        assert(label(batch, i) == assignments@[k].0@);
    }
    assert forall|k: int| 0 <= k < assignments.len() implies evaluate.ensures(
        (&assignments@[k].1, &rows),
        Ok(#[trigger] values[k]),
    ) by {
        assert(expressions[k] == assignments@[k].1);
        assert(evaluates(evaluate, expressions[k], rows, Ok(values[k])));
    }
    (rows, places(mask), values)
}

/// A list of the places at which a mask says true is a list of what the mask stands for.
proof fn lemma_lists_class(mask: Seq<bool>, count: int, wanted: spec_fn(int) -> bool)
    requires
        mask.len() == count,
        lists(places(mask), count, |place: int| mask[place]),
        forall|place: int| 0 <= place < count ==> #[trigger] mask[place] == wanted(place),
    ensures
        lists(places(mask), count, wanted),
{
    let list = places(mask);
    let told = |place: int| mask[place];
    assert forall|a: int| 0 <= a < list.len() implies 0 <= #[trigger] list[a] < count && wanted(
        list[a],
    ) by {
        assert(told(list[a]));
        assert(mask[list[a]]);
    }
    assert forall|place: int| 0 <= place < count && #[trigger] wanted(
        place,
    ) implies list.contains(place) by {
        assert(mask[place]);
        assert(told(place));
    }
}

/// MERGE, WHEN NOT MATCHED: of a joined batch the rows with only a source are kept, all of
/// them and in order. The expressions are evaluated on these rows. Each of the first
/// columns has the value of the expression of its place; the other columns stay as they
/// were joined.
pub proof fn unmatched_rows_are_inserted<
    E,
    V: Fn(&E, &Batch) -> Result<ArrayData, DataFusionError>,
>(
    evaluate: V,
    expressions: Vec<E>,
    batch: Batch,
    target_field_count: int,
    changed: Batch,
) -> (evaluated: (Batch, Seq<int>, Seq<ArrayData>))
    requires
        batch.wf(),
        0 <= target_field_count <= batch.columns.len(),
        may_insert(evaluate, Some(expressions), batch, target_field_count, Ok(Some(changed))),
    ensures
        lists(
            evaluated.1,
            batch.row_count as int,
            |row: int| lacks_target(batch, target_field_count, row),
        ),
        takes_rows(evaluated.0, batch, evaluated.1),
        evaluated.2.len() == expressions.len(),
        expressions.len() <= target_field_count,
        forall|k: int|
            0 <= k < expressions.len() ==> evaluate.ensures(
                (&expressions@[k], &evaluated.0),
                Ok(#[trigger] evaluated.2[k]),
            ),
        changed.schema == batch.schema,
        changed.row_count == evaluated.1.len(),
        changed.columns.len() == batch.columns.len(),
        forall|i: int, row: int|
            #![trigger column_cells(changed.columns@[i])[row]]
            0 <= i < batch.columns.len() && 0 <= row < changed.row_count ==> column_cells(
                changed.columns@[i],
            )[row] == (if i < expressions.len() {
                column_cells(evaluated.2[i])[row]
            } else {
                column_cells(batch.columns@[i])[evaluated.1[row]]
            }),
{
    let mask = not_matched_mask(batch, target_field_count);
    let result: Result<Option<Batch>, ExecError> = Ok(Some(changed));
    let (rows, outcome) = choose|rows: Batch, outcome: Result<Seq<ArrayData>, DataFusionError>|
        {
            &&& rows.wf()
            &&& selects(rows, batch, mask)
            &&& #[trigger] all_evaluate(evaluate, expressions@, rows, outcome)
            &&& match (outcome, result) {
                (Err(error), _) => result == Err::<Option<Batch>, ExecError>(
                    ExecError::DataFusion(error),
                ),
                (Ok(values), Ok(Some(changed))) => inserted_with(
                    rows,
                    target_field_count,
                    values,
                    Ok(changed),
                ),
                (Ok(values), Err(error)) => inserted_with(
                    rows,
                    target_field_count,
                    values,
                    Err(error),
                ),
                _ => false,
            }
        };
    let values = outcome->Ok_0;
    let new = filled_columns(rows, values);
    let wanted = with_columns(rows.columns@, new);
    lemma_classes(batch, target_field_count);
    selections_keep_rows_in_order(rows, batch, mask);
    lemma_lists_class(
        mask,
        batch.row_count as int,
        |row: int| lacks_target(batch, target_field_count, row),
    );
    assert(put_together(rows, new, insert_context(), Ok(changed)));
    assert forall|i: int, row: int|
        #![trigger column_cells(changed.columns@[i])[row]]
        0 <= i < batch.columns.len() && 0 <= row < changed.row_count implies column_cells(
        changed.columns@[i],
    )[row] == (if i < expressions.len() {
        column_cells(values[i])[row]
    } else {
        column_cells(batch.columns@[i])[places(mask)[row]]
    }) by {
        assert(same_column(changed.columns@[i], wanted[i]));
        assert(column_cells(rows.columns@[i])[row] == column_cells(
            batch.columns@[i],
        )[places(mask)[row]]);
    }
    assert forall|k: int| 0 <= k < expressions.len() implies evaluate.ensures(
        (&expressions@[k], &rows),
        Ok(#[trigger] values[k]),
    ) by {
        assert(evaluates(evaluate, expressions@[k], rows, Ok(values[k])));
    }
    (rows, places(mask), values)
}

/// A mask keeps nothing exactly if it never says true.
proof fn lemma_keeps_nothing(mask: Seq<bool>)
    ensures
        kept_count(mask) == 0 <==> forall|k: int| 0 <= k < mask.len() ==> !#[trigger] mask[k],
{
    masks_keep_rows_in_order(mask, mask);
    let list = places(mask);
    let told = |place: int| mask[place];
    if kept_count(mask) == 0 {
        assert forall|k: int| 0 <= k < mask.len() implies !#[trigger] mask[k] by {
            if mask[k] {
                assert(told(k));
                assert(list.contains(k));
            }
        }
    } else {
        assert(told(list[0]));
        assert(mask[list[0]]);
    }
}

/// A merge keeps no updated rows of a batch if it does not update, or if no row has both
/// sides; and no inserted rows if it does not insert, or if no row has only a source. In
/// all other cases it keeps some, or fails.
pub proof fn nothing_is_kept_of_empty_classes<
    E,
    V: Fn(&E, &Batch) -> Result<ArrayData, DataFusionError>,
>(
    evaluate: V,
    assignments: Option<Vec<(String, E)>>,
    expressions: Option<Vec<E>>,
    batch: Batch,
    target_field_count: int,
    updated: Result<Option<Batch>, ExecError>,
    inserted: Result<Option<Batch>, ExecError>,
)
    requires
        0 <= target_field_count <= batch.columns.len(),
        may_update_matched(evaluate, assignments, batch, target_field_count, updated),
        may_insert(evaluate, expressions, batch, target_field_count, inserted),
    ensures
        updated == Ok::<Option<Batch>, ExecError>(None) <==> assignments is None || forall|row: int|
            0 <= row < batch.row_count ==> !#[trigger] joins_both(batch, target_field_count, row),
        inserted == Ok::<Option<Batch>, ExecError>(None) <==> expressions is None || forall|
            row: int,
        |
            0 <= row < batch.row_count ==> !#[trigger] lacks_target(
                batch,
                target_field_count,
                row,
            ),
{
    let matched = matched_mask(batch, target_field_count);
    let not_matched = not_matched_mask(batch, target_field_count);
    lemma_classes(batch, target_field_count);
    lemma_keeps_nothing(matched);
    lemma_keeps_nothing(not_matched);
    if kept_count(matched) == 0 {
        assert forall|row: int| 0 <= row < batch.row_count implies !#[trigger] joins_both(
            batch,
            target_field_count,
            row,
        ) by {
            assert(!matched[row]);
        }
    } else {
        let k = choose|k: int| 0 <= k < matched.len() && #[trigger] matched[k];
        assert(joins_both(batch, target_field_count, k));
    }
    if kept_count(not_matched) == 0 {
        assert forall|row: int| 0 <= row < batch.row_count implies !#[trigger] lacks_target(
            batch,
            target_field_count,
            row,
        ) by {
            assert(!not_matched[row]);
        }
    } else {
        let k = choose|k: int| 0 <= k < not_matched.len() && #[trigger] not_matched[k];
        assert(lacks_target(batch, target_field_count, k));
    }
}

/// What a merge keeps of a joined batch comes after what it kept before: first the updated
/// rows, and then the inserted ones. What it is told to do stays the same.
pub proof fn updates_come_before_inserts<
    E,
    V: Fn(&E, &Batch) -> Result<ArrayData, DataFusionError>,
>(evaluate: V, before: MergeRun<E>, after: MergeRun<E>, batch: Batch) -> (results: (
    Option<Batch>,
    Option<Batch>,
))
    requires
        takes_in(evaluate, before, after, batch, Ok(())),
    ensures
        may_update_matched(
            evaluate,
            before.matched_update,
            batch,
            before.target_field_count as int,
            Ok(results.0),
        ),
        may_insert(
            evaluate,
            before.not_matched_insert,
            batch,
            before.target_field_count as int,
            Ok(results.1),
        ),
        after.result_batches@ == before.result_batches@ + (match results.0 {
            Some(updated) => seq![updated],
            None => seq![],
        }) + (match results.1 {
            Some(inserted) => seq![inserted],
            None => seq![],
        }),
        after.target_field_count == before.target_field_count,
        after.matched_update == before.matched_update,
        after.not_matched_insert == before.not_matched_insert,
        after.schema == before.schema,
{
    let count = before.target_field_count as int;
    let result: Result<(), ExecError> = Ok(());
    let first = choose|first: Option<Batch>|
        {
            &&& #[trigger] may_update_matched(
                evaluate,
                before.matched_update,
                batch,
                count,
                Ok(first),
            )
            &&& exists|inserted: Result<Option<Batch>, ExecError>|
                {
                    &&& #[trigger] may_insert(
                        evaluate,
                        before.not_matched_insert,
                        batch,
                        count,
                        inserted,
                    )
                    &&& match inserted {
                        Err(error) => result == Err::<(), ExecError>(error) && after == before,
                        Ok(second) => {
                            &&& result is Ok
                            &&& keeps(before, after, listed(first) + listed(second))
                        },
                    }
                }
        };
    let second = choose|second: Option<Batch>|
        {
            &&& #[trigger] may_insert(
                evaluate,
                before.not_matched_insert,
                batch,
                count,
                Ok(second),
            )
            &&& keeps(before, after, listed(first) + listed(second))
        };
    assert(after.result_batches@ =~= before.result_batches@ + (match first {
        Some(updated) => seq![updated],
        None => seq![],
    }) + (match second {
        Some(inserted) => seq![inserted],
        None => seq![],
    }));
    (first, second)
}

/// A merge that fails on a joined batch stays as it was, and fails because updating or
/// inserting failed.
pub proof fn failed_batches_leave_no_trace<
    E,
    V: Fn(&E, &Batch) -> Result<ArrayData, DataFusionError>,
>(evaluate: V, before: MergeRun<E>, after: MergeRun<E>, batch: Batch, error: ExecError)
    requires
        takes_in(evaluate, before, after, batch, Err(error)),
    ensures
        after == before,
        may_update_matched(
            evaluate,
            before.matched_update,
            batch,
            before.target_field_count as int,
            Err(error),
        ) || may_insert(
            evaluate,
            before.not_matched_insert,
            batch,
            before.target_field_count as int,
            Err(error),
        ),
{
}

/// Batches one after another: every row of each batch is there, after all rows of the
/// batches before it.
pub proof fn rows_come_one_batch_after_another(
    batches: Seq<Batch>,
    i: int,
    k: int,
    row: int,
)
    requires
        forall|j: int|
            0 <= j < batches.len() ==> column_cells(
                #[trigger] batches[j].columns@[i],
            ).len() == batches[j].row_count,
        0 <= k < batches.len(),
        0 <= row < batches[k].row_count,
    ensures
        concatenated(batches, i).len() == total_rows(batches),
        0 <= total_rows(batches.take(k)) + row < total_rows(batches),
        concatenated(batches, i)[total_rows(batches.take(k)) + row] == column_cells(
            batches[k].columns@[i],
        )[row],
    decreases batches.len(),
{
    let before = batches.drop_last();
    let last = batches.len() - 1;
    assert(column_cells(batches[last].columns@[i]).len() == batches[last].row_count);
    assert forall|j: int| 0 <= j < before.len() implies column_cells(
        #[trigger] before[j].columns@[i],
    ).len() == before[j].row_count by {
        assert(column_cells(batches[j].columns@[i]).len() == batches[j].row_count);
    }
    lemma_all_rows(before, i);
    if k < last {
        rows_come_one_batch_after_another(before, i, k, row);
        assert(before.take(k) =~= batches.take(k));
    } else {
        assert(batches.take(k) =~= before);
    }
}

/// Batches one after another have all their rows.
proof fn lemma_all_rows(batches: Seq<Batch>, i: int)
    requires
        forall|j: int|
            0 <= j < batches.len() ==> column_cells(
                #[trigger] batches[j].columns@[i],
            ).len() == batches[j].row_count,
    ensures
        concatenated(batches, i).len() == total_rows(batches),
    decreases batches.len(),
{
    if batches.len() > 0 {
        let before = batches.drop_last();
        let last = batches.len() - 1;
        assert(column_cells(batches[last].columns@[i]).len() == batches[last].row_count);
        assert forall|j: int| 0 <= j < before.len() implies column_cells(
            #[trigger] before[j].columns@[i],
        ).len() == before[j].row_count by {
            assert(column_cells(batches[j].columns@[i]).len() == batches[j].row_count);
        }
        lemma_all_rows(before, i);
    }
}

/// Counting the rows of batches: none without a batch, and a further batch adds its own.
pub proof fn rows_add_up(batches: Seq<Batch>, further: Batch)
    ensures
        total_rows(Seq::empty()) == 0,
        total_rows(batches.push(further)) == total_rows(batches) + further.row_count,
{
    assert(batches.push(further).drop_last() =~= batches);
}

/// The merged rows are the rows of all batches that were kept, in the order in which they
/// were kept: none is lost, and none is added.
pub proof fn merged_rows_are_those_that_were_kept<E>(run: MergeRun<E>, merged: Batch)
    requires
        run.wf(),
        run.finished(Ok(merged)),
        forall|k: int|
            0 <= k < run.result_batches.len() ==> schema_fields(*run.schema).len() <= (
            #[trigger] run.result_batches[k]).columns.len(),
    ensures
        merged.schema == run.schema,
        merged.columns.len() == schema_fields(*run.schema).len(),
        merged.row_count == total_rows(run.result_batches@),
        forall|i: int|
            0 <= i < merged.columns.len() ==> column_cells(#[trigger] merged.columns@[i]).len()
                == total_rows(run.result_batches@),
        forall|i: int, k: int, row: int|
            #![trigger merged.columns@[i], column_cells(run.result_batches@[k].columns@[i])[row]]
            0 <= i < merged.columns.len() && 0 <= k < run.result_batches.len() && 0 <= row
                < run.result_batches@[k].row_count ==> column_cells(
                merged.columns@[i],
            )[total_rows(run.result_batches@.take(k)) + row] == column_cells(
                run.result_batches@[k].columns@[i],
            )[row],
{
    let batches = run.result_batches@;
    assert forall|i: int, j: int|
        0 <= i < merged.columns.len() && 0 <= j < batches.len() implies column_cells(
        #[trigger] batches[j].columns@[i],
    ).len() == batches[j].row_count by {
        assert(run.result_batches[j] == batches[j]);
        assert(batches[j].wf());
        assert(column_fits(
            batches[j].field(i),
            batches[j].columns@[i],
            batches[j].row_count as nat,
        ));
    }
    assert forall|i: int| 0 <= i < merged.columns.len() implies column_cells(
        #[trigger] merged.columns@[i],
    ).len() == total_rows(batches) by {
        lemma_all_rows(batches, i);
    }
    assert forall|i: int, k: int, row: int|
        #![trigger merged.columns@[i], column_cells(batches[k].columns@[i])[row]]
        0 <= i < merged.columns.len() && 0 <= k < batches.len() && 0 <= row
            < batches[k].row_count implies column_cells(merged.columns@[i])[total_rows(
        batches.take(k),
    ) + row] == column_cells(batches[k].columns@[i])[row] by {
        rows_come_one_batch_after_another(batches, i, k, row);
    }
}

/// A value may stand in the place of a column, in a batch of so many rows: it has the type
/// of the column's field, a row for each row, and no null where the field forbids it.
pub open spec fn may_stand(batch: Batch, i: int, rows: int, value: ArrayData) -> bool {
    let field = field_info(*schema_fields(*batch.schema)[i]);
    &&& column_type(value) == field.column_type
    &&& column_cells(value).len() == rows
    &&& !field.nullable ==> !column_cells(value).contains(Cell::Null)
}

/// New columns are put into a batch if each of them may stand in its place, and not if one
/// of them may not.
proof fn lemma_put_together(
    batch: Batch,
    new: Seq<Option<ArrayData>>,
    context: Seq<char>,
    result: Result<Batch, ExecError>,
)
    requires
        batch.wf(),
        put_together(batch, new, context, result),
        new.len() == batch.columns.len(),
    ensures
        result is Ok <==> forall|i: int|
            0 <= i < new.len() ==> (#[trigger] new[i] matches Some(value) ==> may_stand(
                batch,
                i,
                batch.row_count as int,
                value,
            )),
{
    let wanted = with_columns(batch.columns@, new);
    if forall|i: int|
        0 <= i < new.len() ==> (#[trigger] new[i] matches Some(value) ==> may_stand(
            batch,
            i,
            batch.row_count as int,
            value,
        )) {
        assert forall|i: int| 0 <= i < wanted.len() implies column_fits(
            batch.field(i),
            #[trigger] wanted[i],
            batch.row_count as nat,
        ) by {
            assert(column_fits(batch.field(i), batch.columns@[i], batch.row_count as nat));
            assert(new[i] is Some ==> may_stand(
                batch,
                i,
                batch.row_count as int,
                new[i]->Some_0,
            ));
        }
        assert(batch.accepts(wanted));
    }
    if batch.accepts(wanted) {
        assert forall|i: int| 0 <= i < new.len() implies (
        #[trigger] new[i] matches Some(value) ==> may_stand(
            batch,
            i,
            batch.row_count as int,
            value,
        )) by {
            assert(column_fits(batch.field(i), wanted[i], batch.row_count as nat));
        }
    }
}

/// Matched rows are updated wherever nothing stands in the way: every name is one of the
/// target's columns, and every expression gives values that may stand there.
pub proof fn suitable_matches_are_updated<
    E,
    V: Fn(&E, &Batch) -> Result<ArrayData, DataFusionError>,
>(
    evaluate: V,
    assignments: Vec<(String, E)>,
    batch: Batch,
    target_field_count: int,
    result: Result<Option<Batch>, ExecError>,
)
    requires
        batch.wf(),
        0 <= target_field_count <= batch.columns.len(),
        forall|k: int|
            0 <= k < assignments.len() ==> is_label(
                batch,
                target_field_count,
                (#[trigger] assignments@[k]).0@,
            ),
        forall|k: int, rows: Batch, outcome: Result<ArrayData, DataFusionError>|
            0 <= k < assignments.len() && rows.schema == batch.schema
                && #[trigger] evaluate.ensures((&assignments@[k].1, &rows), outcome) ==> (
            outcome matches Ok(value) && forall|i: int|
                0 <= i < target_field_count && #[trigger] label(batch, i) == assignments@[k].0@
                    ==> may_stand(batch, i, rows.row_count as int, value)),
        may_update_matched(evaluate, Some(assignments), batch, target_field_count, result),
    ensures
        result is Ok,
{
    let mask = matched_mask(batch, target_field_count);
    let names = assigned_names(assignments@);
    let expressions = assigned_expressions(assignments@);
    if kept_count(mask) != 0 {
        let (rows, outcome) = choose|rows: Batch, outcome: Result<Seq<ArrayData>, DataFusionError>|
            {
                &&& rows.wf()
                &&& selects(rows, batch, mask)
                &&& #[trigger] all_evaluate(evaluate, expressions, rows, outcome)
                &&& match (outcome, result) {
                    (Err(error), _) => result == Err::<Option<Batch>, ExecError>(
                        ExecError::DataFusion(error),
                    ),
                    (Ok(values), Ok(Some(changed))) => updated_with(
                        rows,
                        target_field_count,
                        names,
                        values,
                        Ok(changed),
                    ),
                    (Ok(values), Err(error)) => updated_with(
                        rows,
                        target_field_count,
                        names,
                        values,
                        Err(error),
                    ),
                    _ => false,
                }
            };
        assert(rows.names().len() == rows.columns.len());
        match outcome {
            Err(error) => {
                let given = choose|given: Seq<ArrayData>|
                    #[trigger] fails_after(evaluate, expressions, rows, given, error);
                let k = given.len() as int;
                assert(expressions[k] == assignments@[k].1);
                assert(evaluate.ensures((&assignments@[k].1, &rows), Err(error)));
            },
            Ok(values) => {
                let known = target_names(rows, target_field_count);
                assert forall|k: int| 0 <= k < names.len() implies known.contains(
                    #[trigger] names[k],
                ) by {
                    assert(names[k] == assignments@[k].0@);
                    assert(is_label(batch, target_field_count, assignments@[k].0@));
                    let i = choose|i: int|
                        0 <= i < target_field_count && #[trigger] label(batch, i)
                            == assignments@[k].0@;
                    assert(known[i] == names[k]);
                }
                if let Err(error) = result {
                    let failed: Result<Batch, ExecError> = Err(error);
                    let new = set_columns(rows, target_field_count, names, values);
                    assert(put_together(rows, new, update_context(), failed));
                    lemma_put_together(rows, new, update_context(), failed);
                    assert forall|i: int| 0 <= i < new.len() implies (
                    #[trigger] new[i] matches Some(value) ==> may_stand(
                        rows,
                        i,
                        rows.row_count as int,
                        value,
                    )) by {
                        lemma_last_named(names, rows.names()[i]);
                        if let Some(k) = last_named(names, rows.names()[i]) {
                            assert(expressions[k] == assignments@[k].1);
                            assert(evaluates(evaluate, expressions[k], rows, Ok(values[k])));
                            assert(evaluate.ensures((&assignments@[k].1, &rows), Ok(values[k])));
                            assert(label(batch, i) == rows.names()[i]);
                            assert(names[k] == assignments@[k].0@);
                        }
                    }
                }
            },
        }
    }
}

/// Rows with only a source are inserted wherever nothing stands in the way: there is a
/// column of the target for each expression, and every expression gives values that may
/// stand there.
pub proof fn suitable_rows_are_inserted<
    E,
    V: Fn(&E, &Batch) -> Result<ArrayData, DataFusionError>,
>(
    evaluate: V,
    expressions: Vec<E>,
    batch: Batch,
    target_field_count: int,
    result: Result<Option<Batch>, ExecError>,
)
    requires
        batch.wf(),
        expressions.len() <= target_field_count <= batch.columns.len(),
        forall|k: int, rows: Batch, outcome: Result<ArrayData, DataFusionError>|
            0 <= k < expressions.len() && rows.schema == batch.schema
                && #[trigger] evaluate.ensures((&expressions@[k], &rows), outcome) ==> (
            outcome matches Ok(value) && may_stand(batch, k, rows.row_count as int, value)),
        may_insert(evaluate, Some(expressions), batch, target_field_count, result),
    ensures
        result is Ok,
{
    let mask = not_matched_mask(batch, target_field_count);
    if kept_count(mask) != 0 {
        let (rows, outcome) = choose|rows: Batch, outcome: Result<Seq<ArrayData>, DataFusionError>|
            {
                &&& rows.wf()
                &&& selects(rows, batch, mask)
                &&& #[trigger] all_evaluate(evaluate, expressions@, rows, outcome)
                &&& match (outcome, result) {
                    (Err(error), _) => result == Err::<Option<Batch>, ExecError>(
                        ExecError::DataFusion(error),
                    ),
                    (Ok(values), Ok(Some(changed))) => inserted_with(
                        rows,
                        target_field_count,
                        values,
                        Ok(changed),
                    ),
                    (Ok(values), Err(error)) => inserted_with(
                        rows,
                        target_field_count,
                        values,
                        Err(error),
                    ),
                    _ => false,
                }
            };
        match outcome {
            Err(error) => {
                let given = choose|given: Seq<ArrayData>|
                    #[trigger] fails_after(evaluate, expressions@, rows, given, error);
                let k = given.len() as int;
                assert(evaluate.ensures((&expressions@[k], &rows), Err(error)));
            },
            Ok(values) => {
                if let Err(error) = result {
                    let failed: Result<Batch, ExecError> = Err(error);
                    let new = filled_columns(rows, values);
                    assert(put_together(rows, new, insert_context(), failed));
                    lemma_put_together(rows, new, insert_context(), failed);
                    assert forall|i: int| 0 <= i < new.len() implies (
                    #[trigger] new[i] matches Some(value) ==> may_stand(
                        rows,
                        i,
                        rows.row_count as int,
                        value,
                    )) by {
                        if i < values.len() {
                            assert(evaluates(evaluate, expressions@[i], rows, Ok(values[i])));
                            assert(evaluate.ensures((&expressions@[i], &rows), Ok(values[i])));
                        }
                    }
                }
            },
        }
    }
}

/// Evaluating an expression on a batch may fail in a certain way.
pub open spec fn may_fail<E, V: Fn(&E, &Batch) -> Result<ArrayData, DataFusionError>>(
    evaluate: V,
    expression: E,
    batch: Batch,
    cause: DataFusionError,
) -> bool {
    evaluate.ensures((&expression, &batch), Err(cause))
}

/// A refused action has a reason. An error of DataFusion is that of an expression. A
/// refused plan assigns to a column that the target does not have, and names it.
pub proof fn refused_updates_have_a_reason<
    E,
    V: Fn(&E, &Batch) -> Result<ArrayData, DataFusionError>,
>(
    evaluate: V,
    assignments: Vec<(String, E)>,
    batch: Batch,
    target_field_count: int,
    error: ExecError,
)
    requires
        batch.wf(),
        0 <= target_field_count <= batch.columns.len(),
        may_update_matched(evaluate, Some(assignments), batch, target_field_count, Err(error)),
    ensures
        match error {
            ExecError::DataFusion(cause) => exists|k: int, rows: Batch|
                {
                    &&& 0 <= k < assignments.len()
                    &&& rows.schema == batch.schema
                    &&& #[trigger] may_fail(evaluate, assignments@[k].1, rows, cause)
                },
            ExecError::Plan(message) => exists|k: int|
                {
                    &&& 0 <= k < assignments.len()
                    &&& !is_label(batch, target_field_count, (#[trigger] assignments@[k]).0@)
                    &&& message@ == "Column "@ + assignments@[k].0@ + " not found in batch"@
                },
            ExecError::Arrow { .. } => true,
            _ => false,
        },
{
    let mask = matched_mask(batch, target_field_count);
    let names = assigned_names(assignments@);
    let expressions = assigned_expressions(assignments@);
    let result: Result<Option<Batch>, ExecError> = Err(error);
    let (rows, outcome) = choose|rows: Batch, outcome: Result<Seq<ArrayData>, DataFusionError>|
        {
            &&& rows.wf()
            &&& selects(rows, batch, mask)
            &&& #[trigger] all_evaluate(evaluate, expressions, rows, outcome)
            &&& match (outcome, result) {
                (Err(error), _) => result == Err::<Option<Batch>, ExecError>(
                    ExecError::DataFusion(error),
                ),
                (Ok(values), Ok(Some(changed))) => updated_with(
                    rows,
                    target_field_count,
                    names,
                    values,
                    Ok(changed),
                ),
                (Ok(values), Err(error)) => updated_with(
                    rows,
                    target_field_count,
                    names,
                    values,
                    Err(error),
                ),
                _ => false,
            }
        };
    match outcome {
        Err(cause) => {
            let given = choose|given: Seq<ArrayData>|
                #[trigger] fails_after(evaluate, expressions, rows, given, cause);
            let k = given.len() as int;
            assert(expressions[k] == assignments@[k].1);
            assert(error == ExecError::DataFusion(cause));
            assert(0 <= k < assignments.len());
            assert(rows.schema == batch.schema);
            assert(may_fail(evaluate, assignments@[k].1, rows, error->DataFusion_0));
        },
        Ok(values) => {
            let known = target_names(rows, target_field_count);
            if !(forall|k: int| 0 <= k < names.len() ==> known.contains(#[trigger] names[k])) {
                let k = choose|k: int|
                    {
                        &&& 0 <= k < names.len()
                        &&& !known.contains(#[trigger] names[k])
                        &&& forall|j: int| 0 <= j < k ==> known.contains(#[trigger] names[j])
                        &&& error matches ExecError::Plan(message) && message@ == no_such_column(
                            names[k],
                        )
                    };
                assert(names[k] == assignments@[k].0@);
                if is_label(batch, target_field_count, assignments@[k].0@) {
                    let i = choose|i: int|
                        0 <= i < target_field_count && #[trigger] label(batch, i)
                            == assignments@[k].0@;
                    assert(rows.names().len() == rows.columns.len());
                    assert(known[i] == names[k]);
                }
            }
        },
    }
}

/// A refused insert has a reason. An error of DataFusion is that of an expression. A refused
/// plan has more values than the target has columns.
pub proof fn refused_inserts_have_a_reason<
    E,
    V: Fn(&E, &Batch) -> Result<ArrayData, DataFusionError>,
>(
    evaluate: V,
    expressions: Vec<E>,
    batch: Batch,
    target_field_count: int,
    error: ExecError,
)
    requires
        batch.wf(),
        0 <= target_field_count <= batch.columns.len(),
        may_insert(evaluate, Some(expressions), batch, target_field_count, Err(error)),
    ensures
        match error {
            ExecError::DataFusion(cause) => exists|k: int, rows: Batch|
                {
                    &&& 0 <= k < expressions.len()
                    &&& rows.schema == batch.schema
                    &&& #[trigger] may_fail(evaluate, expressions@[k], rows, cause)
                },
            ExecError::Plan(_) => expressions.len() > target_field_count,
            ExecError::Arrow { .. } => true,
            _ => false,
        },
{
    let mask = not_matched_mask(batch, target_field_count);
    let result: Result<Option<Batch>, ExecError> = Err(error);
    let (rows, outcome) = choose|rows: Batch, outcome: Result<Seq<ArrayData>, DataFusionError>|
        {
            &&& rows.wf()
            &&& selects(rows, batch, mask)
            &&& #[trigger] all_evaluate(evaluate, expressions@, rows, outcome)
            &&& match (outcome, result) {
                (Err(error), _) => result == Err::<Option<Batch>, ExecError>(
                    ExecError::DataFusion(error),
                ),
                (Ok(values), Ok(Some(changed))) => inserted_with(
                    rows,
                    target_field_count,
                    values,
                    Ok(changed),
                ),
                (Ok(values), Err(error)) => inserted_with(
                    rows,
                    target_field_count,
                    values,
                    Err(error),
                ),
                _ => false,
            }
        };
    if let Err(cause) = outcome {
        let given = choose|given: Seq<ArrayData>|
            #[trigger] fails_after(evaluate, expressions@, rows, given, cause);
        let k = given.len() as int;
        assert(error == ExecError::DataFusion(cause));
        assert(0 <= k < expressions.len());
        assert(rows.schema == batch.schema);
        assert(may_fail(evaluate, expressions@[k], rows, error->DataFusion_0));
    }
}

/// The merged rows are put together wherever the batches that were kept have the types of
/// the schema's fields, and no null where a field forbids it.
pub proof fn suitable_rows_are_put_together<E>(run: MergeRun<E>, result: Result<Batch, ExecError>)
    requires
        run.finished(result),
        forall|i: int, k: int|
            #![trigger run.result_batches@[k].columns@[i]]
            0 <= i < schema_fields(*run.schema).len() && 0 <= k < run.result_batches.len() ==> {
                let field = field_info(*schema_fields(*run.schema)[i]);
                let column = run.result_batches@[k].columns@[i];
                &&& column_type(column) == field.column_type
                &&& !field.nullable ==> !column_cells(column).contains(Cell::Null)
            },
    ensures
        result is Ok,
{
    let batches = run.result_batches@;
    assert forall|i: int|
        #![trigger schema_fields(*run.schema)[i]]
        0 <= i < schema_fields(*run.schema).len() implies {
        let field = field_info(*schema_fields(*run.schema)[i]);
        &&& forall|k: int|
            0 <= k < batches.len() ==> column_type(#[trigger] batches[k].columns@[i])
                == field.column_type
        &&& !field.nullable ==> !concatenated(batches, i).contains(Cell::Null)
    } by {
        if !field_info(*schema_fields(*run.schema)[i]).nullable {
            lemma_no_nulls(batches, i);
        }
    }
    assert(batches_fit(*run.schema, batches));
}

/// Batches without a null in a column have none when they come one after another.
proof fn lemma_no_nulls(batches: Seq<Batch>, i: int)
    requires
        forall|k: int|
            0 <= k < batches.len() ==> !column_cells(
                #[trigger] batches[k].columns@[i],
            ).contains(Cell::Null),
    ensures
        !concatenated(batches, i).contains(Cell::Null),
    decreases batches.len(),
{
    if batches.len() > 0 {
        let before = batches.drop_last();
        let last = batches.len() - 1;
        assert forall|k: int| 0 <= k < before.len() implies !column_cells(
            #[trigger] before[k].columns@[i],
        ).contains(Cell::Null) by {
            assert(!column_cells(batches[k].columns@[i]).contains(Cell::Null));
        }
        lemma_no_nulls(before, i);
        let first = concatenated(before, i);
        let second = column_cells(batches[last].columns@[i]);
        if concatenated(batches, i).contains(Cell::Null) {
            let row = choose|row: int|
                0 <= row < (first + second).len() && (first + second)[row] == Cell::Null;
            if row < first.len() {
                assert(first[row] == Cell::Null);
            } else {
                assert(second[row - first.len()] == Cell::Null);
            }
        }
    }
}

} // verus!
