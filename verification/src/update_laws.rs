//! What an UPDATE promises, in terms of the rows that go in and come out.

use datafusion::arrow::array::ArrayData;
use datafusion::error::DataFusionError;
use vstd::prelude::*;

use crate::assignments::{
    accepted, all_accepted, all_rows, any_selected, assignable, assigned, assigned_names,
    column_update_fits,
    counts_as_change, evaluates, evaluates_to, mask_of, may_update, may_update_under, modified,
    not_boolean, plainly_fits_beside, rebuilt, refused, touches_incomparable, update_fits,
    updated_cells, updated_under, updates,
};
use crate::batch::{Batch, last_named, lemma_last_named};
use crate::capacity::plainly_appendable;
use crate::columns::{Cell, column_cells, column_fits, column_type, field_info, schema_fields};
use crate::error::ExecError;
use crate::types::comparable;

verus! {

/// What a batch calls a column.
pub open spec fn label(batch: Batch, i: int) -> Seq<char> {
    field_info(*schema_fields(*batch.schema)[i]).name
}

/// The assignment at a place is the last one to a name.
pub open spec fn last_to<E>(assignments: Seq<(String, E)>, k: int, name: Seq<char>) -> bool {
    &&& 0 <= k < assignments.len()
    &&& assignments[k].0@ == name
    &&& forall|j: int| k < j < assignments.len() ==> (#[trigger] assignments[j]).0@ != name
}

/// No assignment is to a name.
pub open spec fn none_to<E>(assignments: Seq<(String, E)>, name: Seq<char>) -> bool {
    forall|j: int| 0 <= j < assignments.len() ==> (#[trigger] assignments[j]).0@ != name
}

/// Where the names of assignments have a name last, or not at all.
proof fn lemma_assigned_last<E>(assignments: Seq<(String, E)>, name: Seq<char>)
    ensures
        match last_named(assigned_names(assignments), name) {
            Some(k) => last_to(assignments, k, name),
            None => none_to(assignments, name),
        },
        forall|k: int|
            last_to(assignments, k, name) ==> last_named(assigned_names(assignments), name)
                == Some(k),
{
    let names = assigned_names(assignments);
    lemma_last_named(names, name);
    assert forall|j: int| 0 <= j < assignments.len() implies names[j] == (
    #[trigger] assignments[j]).0@ by {}
    match last_named(names, name) {
        Some(k) => {
            assert(names[k] == assignments[k].0@);
            assert forall|j: int| k < j < assignments.len() implies (
            #[trigger] assignments[j]).0@ != name by {
                assert(names[j] != name);
            }
        },
        None => {
            assert forall|j: int| 0 <= j < assignments.len() implies (
            #[trigger] assignments[j]).0@ != name by {
                if names[j] == name {
                    assert(names.contains(name));
                }
            }
        },
    }
}

/// Reading a column of truth values as a mask goes row by row: a row is selected exactly
/// if its own value is true, whatever the other rows hold.
pub proof fn masks_tell_row_by_row(column: ArrayData)
    ensures
        mask_of(column).len() == column_cells(column).len(),
        forall|row: int|
            #![trigger mask_of(column)[row]]
            #![trigger column_cells(column)[row]]
            0 <= row < column_cells(column).len() ==> {
                &&& mask_of(column)[row] == Some(true) <==> column_cells(column)[row]
                    == Cell::Boolean(true)
                &&& mask_of(column)[row] == Some(false) <==> column_cells(column)[row]
                    == Cell::Boolean(false)
            },
{
}

/// Without a predicate every row is selected.
pub proof fn all_rows_are_selected(row_count: nat)
    ensures
        all_rows(row_count).len() == row_count,
        forall|row: int|
            0 <= row < row_count ==> #[trigger] all_rows(row_count)[row] == Some(true),
{
}

/// A mask selects something exactly if one of its entries is true.
pub proof fn one_true_entry_is_enough(mask: Seq<Option<bool>>)
    ensures
        any_selected(mask) <==> exists|row: int|
            0 <= row < mask.len() && #[trigger] mask[row] == Some(true),
{
}

/// What values assigned under a mask make of a batch, row by row. In a selected row every
/// column has the value of the last assignment to its name; all else is as it was.
pub proof fn assigned_rows<E>(
    assignments: Seq<(String, E)>,
    batch: Batch,
    mask: Seq<Option<bool>>,
    values: Seq<ArrayData>,
    check_sizes: bool,
    updated: Batch,
)
    requires
        batch.wf(),
        assigned(batch, mask, assigned_names(assignments), values, check_sizes, Ok(updated)),
    ensures
        updated.schema == batch.schema,
        updated.row_count == batch.row_count,
        updated.columns.len() == batch.columns.len(),
        values.len() == assignments.len(),
        assignments.len() > 0 ==> mask.len() == batch.row_count,
        forall|k: int|
            0 <= k < values.len() ==> {
                &&& column_cells(#[trigger] values[k]).len() == batch.row_count
                &&& exists|i: int|
                    0 <= i < batch.columns.len() && #[trigger] label(batch, i)
                        == assignments[k].0@
            },
        forall|i: int|
            0 <= i < batch.columns.len() ==> {
                &&& column_type(#[trigger] updated.columns@[i]) == column_type(batch.columns@[i])
                &&& column_cells(updated.columns@[i]).len() == batch.row_count
            },
        forall|i: int, row: int, k: int|
            #![trigger column_cells(updated.columns@[i])[row], values[k]]
            0 <= i < batch.columns.len() && 0 <= row < batch.row_count && last_to(
                assignments,
                k,
                label(batch, i),
            ) && mask[row] == Some(true) ==> column_cells(updated.columns@[i])[row]
                == column_cells(values[k])[row],
        forall|i: int, row: int|
            #![trigger column_cells(updated.columns@[i])[row]]
            0 <= i < batch.columns.len() && 0 <= row < batch.row_count && (none_to(
                assignments,
                label(batch, i),
            ) || mask[row] != Some(true)) ==> column_cells(updated.columns@[i])[row]
                == column_cells(batch.columns@[i])[row],
{
    let names = assigned_names(assignments);
    assert(batch.names().len() == batch.columns.len());
    assert(rebuilt(batch, mask, names, values, Ok(updated)));
    assert(updates(updated, batch, mask, names, values));
    assert forall|k: int| 0 <= k < values.len() implies {
        &&& column_cells(#[trigger] values[k]).len() == batch.row_count
        &&& mask.len() == batch.row_count
        &&& exists|i: int|
            0 <= i < batch.columns.len() && #[trigger] label(batch, i) == assignments[k].0@
    } by {
        assert(accepted(batch, mask, names[k], values[k], check_sizes));
        lemma_last_named(batch.names(), names[k]);
        let at = last_named(batch.names(), names[k])->Some_0;
        assert(column_fits(batch.field(at), batch.columns@[at], batch.row_count as nat));
        assert(label(batch, at) == batch.names()[at]);
    }
    if assignments.len() > 0 {
        assert(column_cells(values[0]).len() == batch.row_count);
    }
    assert forall|i: int| 0 <= i < batch.columns.len() implies {
        &&& column_type(#[trigger] updated.columns@[i]) == column_type(batch.columns@[i])
        &&& column_cells(updated.columns@[i]) == updated_cells(batch, mask, names, values, i)
        &&& column_cells(updated.columns@[i]).len() == batch.row_count
        &&& column_cells(batch.columns@[i]).len() == batch.row_count
        &&& label(batch, i) == batch.names()[i]
    } by {
        assert(column_fits(batch.field(i), batch.columns@[i], batch.row_count as nat));
        assert(column_fits(updated.field(i), updated.columns@[i], updated.row_count as nat));
    }
    assert forall|i: int, row: int, k: int|
        #![trigger column_cells(updated.columns@[i])[row], values[k]]
        0 <= i < batch.columns.len() && 0 <= row < batch.row_count && last_to(
            assignments,
            k,
            label(batch, i),
        ) && mask[row] == Some(true) implies column_cells(updated.columns@[i])[row]
        == column_cells(values[k])[row] by {
        lemma_assigned_last(assignments, label(batch, i));
    }
    assert forall|i: int, row: int|
        #![trigger column_cells(updated.columns@[i])[row]]
        0 <= i < batch.columns.len() && 0 <= row < batch.row_count && (none_to(
            assignments,
            label(batch, i),
        ) || mask[row] != Some(true)) implies column_cells(updated.columns@[i])[row]
        == column_cells(batch.columns@[i])[row] by {
        lemma_assigned_last(assignments, label(batch, i));
    }
}

/// What an update under a mask makes of a batch, with the values that it came from.
proof fn lemma_updated_rows<E, V: Fn(&E, &Batch) -> Result<ArrayData, DataFusionError>>(
    evaluate: V,
    assignments: Seq<(String, E)>,
    batch: Batch,
    mask: Seq<Option<bool>>,
    check_sizes: bool,
    updated: Batch,
    changed: bool,
) -> (values: Seq<ArrayData>)
    requires
        batch.wf(),
        may_update_under(evaluate, assignments, batch, mask, check_sizes, Ok((updated, changed))),
    ensures
        if any_selected(mask) {
            &&& assigned(batch, mask, assigned_names(assignments), values, check_sizes, Ok(updated))
            &&& forall|k: int|
                0 <= k < values.len() ==> evaluate.ensures(
                    (&assignments[k].1, &batch),
                    Ok(#[trigger] values[k]),
                )
            &&& changed == counts_as_change(updated, batch, assigned_names(assignments))
        } else {
            updated == batch && !changed
        },
{
    let names = assigned_names(assignments);
    let result: Result<(Batch, bool), ExecError> = Ok((updated, changed));
    let (values, failure) = choose|values: Seq<ArrayData>, failure: Option<DataFusionError>|
        {
            &&& #[trigger] evaluates_to(evaluate, assignments, batch, values, failure)
            &&& updated_under(batch, mask, names, values, failure, check_sizes, result)
        };
    if any_selected(mask) {
        assert forall|k: int| 0 <= k < values.len() implies evaluate.ensures(
            (&assignments[k].1, &batch),
            Ok(#[trigger] values[k]),
        ) by {
            assert(evaluates(evaluate, assignments[k].1, batch, Ok(values[k])));
        }
    }
    values
}

/// UPDATE with a predicate: in every row for which the predicate is true, each column has
/// the value that the last assignment to its name gives for that row. In every other row,
/// and in every column that nothing is assigned to, the value is the old one. Where no row
/// matches, nothing is evaluated.
pub proof fn matching_rows_take_their_assignments<
    E,
    V: Fn(&E, &Batch) -> Result<ArrayData, DataFusionError>,
>(
    evaluate: V,
    assignments: Seq<(String, E)>,
    batch: Batch,
    predicate: &E,
    check_sizes: bool,
    updated: Batch,
    changed: bool,
) -> (evaluated: (ArrayData, Seq<ArrayData>))
    requires
        batch.wf(),
        may_update(
            evaluate,
            assignments,
            batch,
            Some(predicate),
            check_sizes,
            Ok((updated, changed)),
        ),
    ensures
        evaluate.ensures((predicate, &batch), Ok(evaluated.0)),
        column_type(evaluated.0) is Boolean,
        updated.schema == batch.schema,
        updated.row_count == batch.row_count,
        updated.columns.len() == batch.columns.len(),
        column_cells(evaluated.0).contains(Cell::Boolean(true)) ==> {
            &&& evaluated.1.len() == assignments.len()
            &&& assignments.len() > 0 ==> column_cells(evaluated.0).len() == batch.row_count
            &&& forall|k: int|
                0 <= k < assignments.len() ==> {
                    &&& evaluate.ensures(
                        (&assignments[k].1, &batch),
                        Ok(#[trigger] evaluated.1[k]),
                    )
                    &&& column_cells(evaluated.1[k]).len() == batch.row_count
                    &&& exists|i: int|
                        0 <= i < batch.columns.len() && #[trigger] label(batch, i)
                            == assignments[k].0@
                }
        },
        forall|i: int|
            0 <= i < batch.columns.len() ==> column_type(#[trigger] updated.columns@[i])
                == column_type(batch.columns@[i]),
        forall|i: int, row: int, k: int|
            #![trigger column_cells(updated.columns@[i])[row], evaluated.1[k]]
            0 <= i < batch.columns.len() && 0 <= row < batch.row_count && 0 <= row < column_cells(
                evaluated.0,
            ).len() && column_cells(evaluated.0)[row] == Cell::Boolean(true) && last_to(
                assignments,
                k,
                label(batch, i),
            ) ==> column_cells(updated.columns@[i])[row] == column_cells(evaluated.1[k])[row],
        forall|i: int, row: int|
            #![trigger column_cells(updated.columns@[i])[row]]
            0 <= i < batch.columns.len() && 0 <= row < batch.row_count && (none_to(
                assignments,
                label(batch, i),
            ) || (row < column_cells(evaluated.0).len() && column_cells(evaluated.0)[row]
                != Cell::Boolean(true))) ==> column_cells(updated.columns@[i])[row]
                == column_cells(batch.columns@[i])[row],
{
    let result: Result<(Batch, bool), ExecError> = Ok((updated, changed));
    let column = choose|column: ArrayData|
        {
            &&& #[trigger] evaluates(evaluate, *predicate, batch, Ok(column))
            &&& column_type(column) is Boolean
            &&& may_update_under(
                evaluate,
                assignments,
                batch,
                mask_of(column),
                check_sizes,
                result,
            )
        };
    let mask = mask_of(column);
    let cells = column_cells(column);
    let values = lemma_updated_rows(
        evaluate,
        assignments,
        batch,
        mask,
        check_sizes,
        updated,
        changed,
    );
    masks_tell_row_by_row(column);
    one_true_entry_is_enough(mask);
    if cells.contains(Cell::Boolean(true)) {
        let row = choose|row: int| 0 <= row < cells.len() && cells[row] == Cell::Boolean(true);
        assert(mask[row] == Some(true));
    }
    if any_selected(mask) {
        assigned_rows(assignments, batch, mask, values, check_sizes, updated);
        let row = choose|row: int| 0 <= row < mask.len() && #[trigger] mask[row] == Some(true);
        assert(cells[row] == Cell::Boolean(true));
    }
    assert forall|i: int, row: int, k: int|
        #![trigger column_cells(updated.columns@[i])[row], values[k]]
        0 <= i < batch.columns.len() && 0 <= row < batch.row_count && 0 <= row < cells.len()
            && cells[row] == Cell::Boolean(true) && last_to(
            assignments,
            k,
            label(batch, i),
        ) implies column_cells(updated.columns@[i])[row] == column_cells(values[k])[row] by {
        assert(mask[row] == Some(true));
    }
    assert forall|i: int, row: int|
        #![trigger column_cells(updated.columns@[i])[row]]
        0 <= i < batch.columns.len() && 0 <= row < batch.row_count && (none_to(
            assignments,
            label(batch, i),
        ) || (row < cells.len() && cells[row] != Cell::Boolean(true))) implies column_cells(
        updated.columns@[i],
    )[row] == column_cells(batch.columns@[i])[row] by {
        if row < cells.len() {
            assert(mask[row] == Some(true) <==> cells[row] == Cell::Boolean(true));
        }
    }
    (column, values)
}

/// UPDATE without a predicate: in every row, each column has the value that the last
/// assignment to its name gives for that row. A column that nothing is assigned to stays
/// as it is, and so does a batch without rows.
pub proof fn all_rows_take_their_assignments<
    E,
    V: Fn(&E, &Batch) -> Result<ArrayData, DataFusionError>,
>(
    evaluate: V,
    assignments: Seq<(String, E)>,
    batch: Batch,
    check_sizes: bool,
    updated: Batch,
    changed: bool,
) -> (values: Seq<ArrayData>)
    requires
        batch.wf(),
        may_update(evaluate, assignments, batch, None, check_sizes, Ok((updated, changed))),
    ensures
        updated.schema == batch.schema,
        updated.row_count == batch.row_count,
        updated.columns.len() == batch.columns.len(),
        batch.row_count > 0 ==> {
            &&& values.len() == assignments.len()
            &&& forall|k: int|
                0 <= k < assignments.len() ==> {
                    &&& evaluate.ensures((&assignments[k].1, &batch), Ok(#[trigger] values[k]))
                    &&& column_cells(values[k]).len() == batch.row_count
                    &&& exists|i: int|
                        0 <= i < batch.columns.len() && #[trigger] label(batch, i)
                            == assignments[k].0@
                }
        },
        forall|i: int|
            0 <= i < batch.columns.len() ==> column_type(#[trigger] updated.columns@[i])
                == column_type(batch.columns@[i]),
        forall|i: int, row: int, k: int|
            #![trigger column_cells(updated.columns@[i])[row], values[k]]
            0 <= i < batch.columns.len() && 0 <= row < batch.row_count && last_to(
                assignments,
                k,
                label(batch, i),
            ) ==> column_cells(updated.columns@[i])[row] == column_cells(values[k])[row],
        forall|i: int, row: int|
            #![trigger column_cells(updated.columns@[i])[row]]
            0 <= i < batch.columns.len() && 0 <= row < batch.row_count && none_to(
                assignments,
                label(batch, i),
            ) ==> column_cells(updated.columns@[i])[row] == column_cells(batch.columns@[i])[row],
{
    let mask = all_rows(batch.row_count as nat);
    let values = lemma_updated_rows(
        evaluate,
        assignments,
        batch,
        mask,
        check_sizes,
        updated,
        changed,
    );
    all_rows_are_selected(batch.row_count as nat);
    one_true_entry_is_enough(mask);
    if batch.row_count > 0 {
        assert(mask[0] == Some(true));
        assigned_rows(assignments, batch, mask, values, check_sizes, updated);
        assert forall|row: int| 0 <= row < batch.row_count implies #[trigger] mask[row] == Some(
            true,
        ) by {}
    }
    values
}

/// An update says that it changed something if a value is another one than before, and
/// only then, as long as every column that it assigns to can be compared.
pub proof fn changes_are_told<E, V: Fn(&E, &Batch) -> Result<ArrayData, DataFusionError>>(
    evaluate: V,
    assignments: Seq<(String, E)>,
    batch: Batch,
    predicate: Option<&E>,
    check_sizes: bool,
    updated: Batch,
    changed: bool,
)
    requires
        batch.wf(),
        may_update(evaluate, assignments, batch, predicate, check_sizes, Ok((updated, changed))),
    ensures
        (exists|i: int, row: int|
            0 <= i < batch.columns.len() && 0 <= row < batch.row_count && #[trigger] column_cells(
                updated.columns@[i],
            )[row] != column_cells(batch.columns@[i])[row]) ==> changed,
        changed ==> (exists|i: int, row: int|
            0 <= i < batch.columns.len() && 0 <= row < batch.row_count && #[trigger] column_cells(
                updated.columns@[i],
            )[row] != column_cells(batch.columns@[i])[row]) || (exists|i: int|
            0 <= i < batch.columns.len() && !none_to(assignments, label(batch, i))
                && !comparable(column_type(#[trigger] batch.columns@[i]))),
{
    let names = assigned_names(assignments);
    let result: Result<(Batch, bool), ExecError> = Ok((updated, changed));
    let mask = match predicate {
        None => all_rows(batch.row_count as nat),
        Some(expression) => mask_of(
            choose|column: ArrayData|
                {
                    &&& #[trigger] evaluates(evaluate, *expression, batch, Ok(column))
                    &&& column_type(column) is Boolean
                    &&& may_update_under(
                        evaluate,
                        assignments,
                        batch,
                        mask_of(column),
                        check_sizes,
                        result,
                    )
                },
        ),
    };
    let values = lemma_updated_rows(
        evaluate,
        assignments,
        batch,
        mask,
        check_sizes,
        updated,
        changed,
    );
    if any_selected(mask) && changed && !modified(updated, batch) {
        assert(touches_incomparable(batch, names));
        let i = choose|i: int|
            0 <= i < batch.columns.len() && names.contains(batch.names()[i]) && !comparable(
                column_type(#[trigger] batch.columns@[i]),
            );
        assert(batch.names().len() == batch.columns.len());
        assert(label(batch, i) == batch.names()[i]);
        let j = choose|j: int| 0 <= j < names.len() && names[j] == batch.names()[i];
        assert(assignments[j].0@ == label(batch, i));
    }
}

/// A value that can be assigned to every column of a name in a batch: there is such a
/// column, and each has the value's type. The value has a row for each row of the batch,
/// and no null where a column may hold none.
pub open spec fn suits(batch: Batch, name: Seq<char>, value: ArrayData) -> bool {
    &&& column_cells(value).len() == batch.row_count
    &&& exists|i: int| 0 <= i < batch.columns.len() && #[trigger] label(batch, i) == name
    &&& forall|i: int|
        0 <= i < batch.columns.len() && label(batch, i) == name ==> {
            &&& column_type(value) == column_type(#[trigger] batch.columns@[i])
            &&& !field_info(*schema_fields(*batch.schema)[i]).nullable ==> !column_cells(
                value,
            ).contains(Cell::Null)
        }
}

/// It is easy to see that a value fits into one column with the values of each column of a
/// name.
pub open spec fn plainly_suits(batch: Batch, name: Seq<char>, value: ArrayData) -> bool {
    forall|i: int|
        0 <= i < batch.columns.len() && label(batch, i) == name ==> plainly_appendable(
            seq![value, #[trigger] batch.columns@[i]],
        )
}

/// Values that suit their columns are assigned.
proof fn lemma_suitable_values<E>(
    assignments: Seq<(String, E)>,
    batch: Batch,
    mask: Seq<Option<bool>>,
    values: Seq<ArrayData>,
    check_sizes: bool,
)
    requires
        batch.wf(),
        mask.len() == batch.row_count,
        values.len() <= assignments.len(),
        forall|k: int|
            0 <= k < values.len() ==> suits(batch, assignments[k].0@, #[trigger] values[k]),
        check_sizes ==> forall|k: int|
            0 <= k < values.len() ==> plainly_suits(batch, assignments[k].0@, #[trigger] values[k]),
    ensures
        all_accepted(batch, mask, assigned_names(assignments), values, check_sizes),
        values.len() == assignments.len() ==> update_fits(
            batch,
            mask,
            assigned_names(assignments),
            values,
        ),
{
    let names = assigned_names(assignments);
    assert(batch.names().len() == batch.columns.len());
    assert forall|i: int| 0 <= i < batch.columns.len() implies {
        &&& #[trigger] label(batch, i) == batch.names()[i]
        &&& column_fits(batch.field(i), batch.columns@[i], batch.row_count as nat)
    } by {
        assert(column_fits(batch.field(i), batch.columns@[i], batch.row_count as nat));
    }
    assert forall|k: int| 0 <= k < values.len() implies accepted(
        batch,
        mask,
        names[k],
        #[trigger] values[k],
        check_sizes,
    ) by {
        assert(suits(batch, assignments[k].0@, values[k]));
        if check_sizes {
            assert(plainly_suits(batch, assignments[k].0@, values[k]));
            assert forall|i: int|
                0 <= i < batch.columns.len() && batch.names()[i]
                    == names[k] implies plainly_appendable(
                seq![values[k], #[trigger] batch.columns@[i]],
            ) by {
                assert(label(batch, i) == batch.names()[i]);
            }
        }
        assert(names[k] == assignments[k].0@);
        lemma_last_named(batch.names(), names[k]);
        let i = choose|i: int|
            0 <= i < batch.columns.len() && #[trigger] label(batch, i) == assignments[k].0@;
        assert(batch.names()[i] == names[k]);
        assert(batch.names().contains(names[k]));
        let at = last_named(batch.names(), names[k])->Some_0;
        assert(label(batch, at) == names[k]);
    }
    if values.len() == assignments.len() {
        assert forall|i: int| 0 <= i < batch.columns.len() implies #[trigger] column_update_fits(
            batch,
            mask,
            names,
            values,
            i,
        ) by {
            assert(label(batch, i) == batch.names()[i]);
            lemma_last_named(names, batch.names()[i]);
            let cells = updated_cells(batch, mask, names, values, i);
            if let Some(k) = last_named(names, batch.names()[i]) {
                assert(suits(batch, assignments[k].0@, values[k]));
                assert(names[k] == assignments[k].0@);
                if cells.contains(Cell::Null) && !batch.field(i).nullable {
                    let row = choose|row: int| 0 <= row < cells.len() && cells[row] == Cell::Null;
                    if mask[row] == Some(true) {
                        assert(column_cells(values[k])[row] == Cell::Null);
                    } else {
                        assert(column_cells(batch.columns@[i])[row] == Cell::Null);
                    }
                }
            }
        }
    }
}

/// An update succeeds wherever nothing stands in its way: the predicate gives a truth value
/// for each row, and every expression gives values that suit the columns of its name. If it
/// checks sizes, it also has to be easy to see that they fit.
pub proof fn suitable_updates_succeed<E, V: Fn(&E, &Batch) -> Result<ArrayData, DataFusionError>>(
    evaluate: V,
    assignments: Seq<(String, E)>,
    batch: Batch,
    predicate: Option<&E>,
    check_sizes: bool,
    result: Result<(Batch, bool), ExecError>,
)
    requires
        batch.wf(),
        predicate matches Some(expression) ==> forall|
            outcome: Result<ArrayData, DataFusionError>,
        |
            #[trigger] evaluate.ensures((expression, &batch), outcome) ==> (outcome matches Ok(
                column,
            ) && column_type(column) is Boolean && column_cells(column).len() == batch.row_count),
        forall|k: int, outcome: Result<ArrayData, DataFusionError>|
            0 <= k < assignments.len() && #[trigger] evaluate.ensures(
                (&assignments[k].1, &batch),
                outcome,
            ) ==> (outcome matches Ok(value) && suits(batch, assignments[k].0@, value) && (
            check_sizes ==> plainly_suits(batch, assignments[k].0@, value))),
        may_update(evaluate, assignments, batch, predicate, check_sizes, result),
    ensures
        result is Ok,
{
    let names = assigned_names(assignments);
    let mask = match predicate {
        None => all_rows(batch.row_count as nat),
        Some(expression) => {
            let outcome = choose|outcome: Result<ArrayData, DataFusionError>|
                {
                    &&& #[trigger] evaluates(evaluate, *expression, batch, outcome)
                    &&& match outcome {
                        Err(error) => result == Err::<(Batch, bool), ExecError>(
                            ExecError::DataFusion(error),
                        ),
                        Ok(column) => if column_type(column) is Boolean {
                            let mask = mask_of(column);
                            may_update_under(
                                evaluate,
                                assignments,
                                batch,
                                mask,
                                check_sizes,
                                result,
                            )
                        } else {
                            result matches Err(ExecError::Internal(message)) && message@
                                == not_boolean()
                        },
                    }
                };
            assert(evaluate.ensures((expression, &batch), outcome));
            masks_tell_row_by_row(outcome->Ok_0);
            mask_of(outcome->Ok_0)
        },
    };
    all_rows_are_selected(batch.row_count as nat);
    let (values, failure) = choose|values: Seq<ArrayData>, failure: Option<DataFusionError>|
        {
            &&& #[trigger] evaluates_to(evaluate, assignments, batch, values, failure)
            &&& updated_under(batch, mask, names, values, failure, check_sizes, result)
        };
    if any_selected(mask) {
        if let Some(error) = failure {
            let k = values.len() as int;
            assert(evaluate.ensures((&assignments[k].1, &batch), Err(error)));
        }
        assert forall|k: int| 0 <= k < values.len() implies suits(
            batch,
            assignments[k].0@,
            #[trigger] values[k],
        ) && (check_sizes ==> plainly_suits(batch, assignments[k].0@, values[k])) by {
            assert(evaluates(evaluate, assignments[k].1, batch, Ok(values[k])));
            assert(evaluate.ensures((&assignments[k].1, &batch), Ok(values[k])));
        }
        lemma_suitable_values(assignments, batch, mask, values, check_sizes);
    }
}

/// Some possible outcome of evaluating an expression does not give a truth value for each
/// row of a batch.
pub open spec fn may_not_tell<E, V: Fn(&E, &Batch) -> Result<ArrayData, DataFusionError>>(
    evaluate: V,
    expression: &E,
    batch: Batch,
) -> bool {
    exists|column: ArrayData|
        #[trigger] evaluate.ensures((expression, &batch), Ok(column)) && !(column_type(
            column,
        ) is Boolean && column_cells(column).len() == batch.row_count)
}

/// A failed update has a reason. An error of DataFusion is that of the predicate or of an
/// expression. A refused plan names a column that is assigned to and not there. Arrow fails
/// only over values that do not suit their columns, or over a predicate that does not tell
/// for each row. Sizes are refused only where they are checked, and are not easy to see.
pub proof fn failed_updates_have_a_reason<
    E,
    V: Fn(&E, &Batch) -> Result<ArrayData, DataFusionError>,
>(
    evaluate: V,
    assignments: Seq<(String, E)>,
    batch: Batch,
    predicate: Option<&E>,
    check_sizes: bool,
    error: ExecError,
)
    requires
        batch.wf(),
        may_update(evaluate, assignments, batch, predicate, check_sizes, Err(error)),
    ensures
        match error {
            ExecError::DataFusion(cause) => {
                ||| predicate matches Some(expression) && evaluate.ensures(
                    (expression, &batch),
                    Err(cause),
                )
                ||| exists|k: int|
                    0 <= k < assignments.len() && evaluate.ensures(
                        (&(#[trigger] assignments[k]).1, &batch),
                        Err(cause),
                    )
            },
            ExecError::Internal(_) => predicate matches Some(expression) && may_not_tell(
                evaluate,
                expression,
                batch,
            ),
            ExecError::Plan(message) => exists|k: int|
                {
                    &&& 0 <= k < assignments.len()
                    &&& forall|i: int|
                        0 <= i < batch.columns.len() ==> #[trigger] label(batch, i)
                            != assignments[k].0@
                    &&& message@ == "Column "@ + (#[trigger] assignments[k]).0@
                        + " not found in batch"@
                },
            ExecError::Arrow { .. } => {
                ||| predicate matches Some(expression) && may_not_tell(evaluate, expression, batch)
                ||| exists|k: int, value: ArrayData|
                    {
                        &&& 0 <= k < assignments.len()
                        &&& #[trigger] evaluate.ensures((&assignments[k].1, &batch), Ok(value))
                        &&& !suits(batch, assignments[k].0@, value)
                    }
            },
            ExecError::Overflow(_) => check_sizes && exists|k: int, value: ArrayData|
                {
                    &&& 0 <= k < assignments.len()
                    &&& #[trigger] evaluate.ensures((&assignments[k].1, &batch), Ok(value))
                    &&& !plainly_suits(batch, assignments[k].0@, value)
                },
            _ => false,
        },
{
    let names = assigned_names(assignments);
    let result: Result<(Batch, bool), ExecError> = Err(error);
    let (mask, evaluated) = match predicate {
        None => (all_rows(batch.row_count as nat), true),
        Some(expression) => {
            let outcome = choose|outcome: Result<ArrayData, DataFusionError>|
                {
                    &&& #[trigger] evaluates(evaluate, *expression, batch, outcome)
                    &&& match outcome {
                        Err(error) => result == Err::<(Batch, bool), ExecError>(
                            ExecError::DataFusion(error),
                        ),
                        Ok(column) => if column_type(column) is Boolean {
                            let mask = mask_of(column);
                            may_update_under(
                                evaluate,
                                assignments,
                                batch,
                                mask,
                                check_sizes,
                                result,
                            )
                        } else {
                            result matches Err(ExecError::Internal(message)) && message@
                                == not_boolean()
                        },
                    }
                };
            assert(evaluate.ensures((expression, &batch), outcome));
            match outcome {
                Err(_) => (Seq::empty(), false),
                Ok(column) => {
                    masks_tell_row_by_row(column);
                    (mask_of(column), column_type(column) is Boolean)
                },
            }
        },
    };
    all_rows_are_selected(batch.row_count as nat);
    if evaluated {
        let (values, failure) = choose|values: Seq<ArrayData>, failure: Option<DataFusionError>|
            {
                &&& #[trigger] evaluates_to(evaluate, assignments, batch, values, failure)
                &&& updated_under(batch, mask, names, values, failure, check_sizes, result)
            };
        match failure {
            Some(cause) => {
                let k = values.len() as int;
                assert(evaluate.ensures((&assignments[k].1, &batch), Err(cause)));
            },
            None => {
                assert(assigned(batch, mask, names, values, check_sizes, Err(error)));
                lemma_refused_for_a_reason(assignments, batch, mask, values, check_sizes, error);
                assert forall|k: int| 0 <= k < values.len() implies evaluate.ensures(
                    (&assignments[k].1, &batch),
                    Ok(#[trigger] values[k]),
                ) by {
                    assert(evaluates(evaluate, assignments[k].1, batch, Ok(values[k])));
                }
                if error is Arrow && mask.len() == batch.row_count {
                    let k = choose|k: int|
                        0 <= k < values.len() && !suits(
                            batch,
                            assignments[k].0@,
                            #[trigger] values[k],
                        );
                    assert(evaluate.ensures((&assignments[k].1, &batch), Ok(values[k])));
                }
                if error is Overflow {
                    let k = choose|k: int|
                        0 <= k < values.len() && !plainly_suits(
                            batch,
                            assignments[k].0@,
                            #[trigger] values[k],
                        );
                    assert(evaluate.ensures((&assignments[k].1, &batch), Ok(values[k])));
                }
            },
        }
    }
}

/// Assignments that fail do so over a name that is not there, or over values that do not
/// suit their columns, or over a mask of another length.
proof fn lemma_refused_for_a_reason<E>(
    assignments: Seq<(String, E)>,
    batch: Batch,
    mask: Seq<Option<bool>>,
    values: Seq<ArrayData>,
    check_sizes: bool,
    error: ExecError,
)
    requires
        batch.wf(),
        values.len() <= assignments.len(),
        assigned(batch, mask, assigned_names(assignments), values, check_sizes, Err(error)),
    ensures
        match error {
            ExecError::Plan(message) => exists|k: int|
                {
                    &&& 0 <= k < assignments.len()
                    &&& forall|i: int|
                        0 <= i < batch.columns.len() ==> #[trigger] label(batch, i)
                            != assignments[k].0@
                    &&& message@ == "Column "@ + (#[trigger] assignments[k]).0@
                        + " not found in batch"@
                },
            ExecError::Arrow { .. } => mask.len() == batch.row_count ==> exists|k: int|
                0 <= k < values.len() && !suits(batch, assignments[k].0@, #[trigger] values[k]),
            ExecError::Overflow(_) => check_sizes && exists|k: int|
                0 <= k < values.len() && !plainly_suits(
                    batch,
                    assignments[k].0@,
                    #[trigger] values[k],
                ),
            _ => false,
        },
{
    let names = assigned_names(assignments);
    assert(batch.names().len() == batch.columns.len());
    if mask.len() == batch.row_count && forall|k: int|
        0 <= k < values.len() ==> suits(batch, assignments[k].0@, #[trigger] values[k]) {
        lemma_suitable_values(assignments, batch, mask, values, false);
    }
    if names.len() == values.len() && all_accepted(batch, mask, names, values, check_sizes)
        && rebuilt(batch, mask, names, values, Err(error)) {
    } else {
        let k = choose|k: int|
            {
                &&& 0 <= k < values.len()
                &&& all_accepted(batch, mask, names, values.take(k), check_sizes)
                &&& refused(batch, mask, names[k], #[trigger] values[k], check_sizes, error)
            };
        if check_sizes && !plainly_fits_beside(batch, names[k], values[k]) {
            let i = choose|i: int|
                0 <= i < batch.columns.len() && batch.names()[i] == names[k]
                    && !plainly_appendable(seq![values[k], #[trigger] batch.columns@[i]]);
            assert(label(batch, i) == batch.names()[i]);
            assert(!plainly_suits(batch, assignments[k].0@, values[k]));
        } else {
            assert(!assignable(batch, mask, names[k], values[k]));
            if mask.len() == batch.row_count && forall|j: int|
                0 <= j < values.len() ==> suits(batch, assignments[j].0@, #[trigger] values[j]) {
                assert(accepted(batch, mask, names[k], values[k], false));
            }
        }
        assert(names[k] == assignments[k].0@);
        lemma_last_named(batch.names(), names[k]);
        if last_named(batch.names(), names[k]) is None {
            assert forall|i: int| 0 <= i < batch.columns.len() implies #[trigger] label(batch, i)
                != assignments[k].0@ by {
                assert(label(batch, i) == batch.names()[i]);
                if batch.names()[i] == names[k] {
                    assert(batch.names().contains(names[k]));
                }
            }
            assert(error is Plan);
        }
    }
}

} // verus!
