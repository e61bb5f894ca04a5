//! Assigning new values to some rows of a batch, column by column.
//!
//! A mask says which rows are selected. In those rows an assignment replaces the
//! values of the columns of one name; all other rows stay as they are.

use datafusion::arrow::array::ArrayData;
use datafusion::error::DataFusionError;
use vstd::prelude::*;

use crate::batch::{Batch, last_named, lemma_last_named, lemma_same_columns_fit};
use crate::capacity::{appendable, can_append, plainly_appendable};
use crate::columns::{
    Cell, FieldInfo, all_arrays, arrayable, blended, boolean_values, column_cells, column_fits,
    column_type, columns_fit, same_column, same_columns, same_rows, try_new_with_row_count,
    zip_columns,
};
use crate::error::ExecError;
use crate::text::{same_text, texts};
use crate::types::{ColumnType, comparable, type_is_comparable};

verus! {

/// Some row is selected.
pub open spec fn any_selected(mask: Seq<Option<bool>>) -> bool {
    mask.contains(Some(true))
}

/// A mask that selects every row.
pub open spec fn all_rows(row_count: nat) -> Seq<Option<bool>> {
    Seq::new(row_count, |row: int| Some(true))
}

/// The mask that a column of truth values stands for.
pub open spec fn mask_of(column: ArrayData) -> Seq<Option<bool>> {
    column_cells(column).map_values(
        |cell: Cell|
            match cell {
                Cell::Boolean(selected) => Some(selected),
                _ => None,
            },
    )
}

/// Whether the last column of a name can take new values: it is there, it has their type,
/// and there is a new value, an old value and a word of the mask for every row.
pub open spec fn assignable(
    batch: Batch,
    mask: Seq<Option<bool>>,
    name: Seq<char>,
    value: ArrayData,
) -> bool {
    match last_named(batch.names(), name) {
        None => false,
        Some(i) => {
            &&& column_type(value) == column_type(batch.columns@[i])
            &&& column_cells(value).len() == mask.len()
            &&& column_cells(batch.columns@[i]).len() == mask.len()
        },
    }
}

/// New values and the old ones of each column of a name can be put into one column, if
/// they have one type.
pub open spec fn fits_beside(batch: Batch, name: Seq<char>, value: ArrayData) -> bool {
    forall|i: int|
        0 <= i < batch.columns.len() && batch.names()[i] == name && column_type(value)
            == column_type(#[trigger] batch.columns@[i]) ==> appendable(
            seq![value, batch.columns@[i]],
        )
}

/// It is easy to see that new values and the old ones of each column of a name can be put
/// into one column.
pub open spec fn plainly_fits_beside(batch: Batch, name: Seq<char>, value: ArrayData) -> bool {
    forall|i: int|
        0 <= i < batch.columns.len() && batch.names()[i] == name ==> plainly_appendable(
            seq![value, #[trigger] batch.columns@[i]],
        )
}

/// Whether an assignment goes through. One that checks sizes also wants to see that
/// they are in order.
pub open spec fn accepted(
    batch: Batch,
    mask: Seq<Option<bool>>,
    name: Seq<char>,
    value: ArrayData,
    check_sizes: bool,
) -> bool {
    assignable(batch, mask, name, value) && (check_sizes ==> plainly_fits_beside(
        batch,
        name,
        value,
    ))
}

/// The refusal of an assignment to a column that is not there.
pub open spec fn no_such_column(name: Seq<char>) -> Seq<char> {
    "Column "@ + name + " not found in batch"@
}

/// The refusal of values that may be too many for one column.
pub open spec fn unclear_size() -> Seq<char> {
    "The new values may not fit into one column with the old ones"@
}

/// Whether an assignment is refused with this error.
pub open spec fn refused(
    batch: Batch,
    mask: Seq<Option<bool>>,
    name: Seq<char>,
    value: ArrayData,
    check_sizes: bool,
    error: ExecError,
) -> bool {
    &&& !accepted(batch, mask, name, value, check_sizes)
    &&& if last_named(batch.names(), name) is None {
        error matches ExecError::Plan(message) && message@ == no_such_column(name)
    } else if check_sizes && !plainly_fits_beside(batch, name, value) {
        error matches ExecError::Overflow(message) && message@ == unclear_size()
    } else {
        error matches ExecError::Arrow { context: None, .. }
    }
}

/// All assignments go through.
pub open spec fn all_accepted(
    batch: Batch,
    mask: Seq<Option<bool>>,
    names: Seq<Seq<char>>,
    values: Seq<ArrayData>,
    check_sizes: bool,
) -> bool {
    forall|k: int|
        0 <= k < values.len() ==> accepted(batch, mask, names[k], #[trigger] values[k], check_sizes)
}

/// The values of a column after the assignments: in the selected rows those of the
/// last assignment to its name, and elsewhere the old ones.
pub open spec fn updated_cells(
    batch: Batch,
    mask: Seq<Option<bool>>,
    names: Seq<Seq<char>>,
    values: Seq<ArrayData>,
    i: int,
) -> Seq<Cell> {
    let current = column_cells(batch.columns@[i]);
    match last_named(names, batch.names()[i]) {
        None => current,
        Some(k) => blended(mask, column_cells(values[k]), current),
    }
}

/// The type of a column's values after the assignments.
pub open spec fn updated_type(
    batch: Batch,
    names: Seq<Seq<char>>,
    values: Seq<ArrayData>,
    i: int,
) -> ColumnType {
    match last_named(names, batch.names()[i]) {
        None => column_type(batch.columns@[i]),
        Some(k) => column_type(values[k]),
    }
}

/// Whether values of a type may stand under a field, in a batch of `rows` rows.
pub open spec fn cells_fit(
    field: FieldInfo,
    cells_type: ColumnType,
    cells: Seq<Cell>,
    rows: nat,
) -> bool {
    &&& cells_type == field.column_type
    &&& cells.len() == rows
    &&& !field.nullable ==> !cells.contains(Cell::Null)
}

/// Whether a column may still stand under its field after the assignments.
pub open spec fn column_update_fits(
    batch: Batch,
    mask: Seq<Option<bool>>,
    names: Seq<Seq<char>>,
    values: Seq<ArrayData>,
    i: int,
) -> bool {
    cells_fit(
        batch.field(i),
        updated_type(batch, names, values, i),
        updated_cells(batch, mask, names, values, i),
        batch.row_count as nat,
    )
}

/// Whether the columns may still stand under the schema after the assignments.
pub open spec fn update_fits(
    batch: Batch,
    mask: Seq<Option<bool>>,
    names: Seq<Seq<char>>,
    values: Seq<ArrayData>,
) -> bool {
    forall|i: int|
        0 <= i < batch.columns.len() ==> #[trigger] column_update_fits(
            batch,
            mask,
            names,
            values,
            i,
        )
}

/// A batch after the assignments.
pub open spec fn updates(
    updated: Batch,
    batch: Batch,
    mask: Seq<Option<bool>>,
    names: Seq<Seq<char>>,
    values: Seq<ArrayData>,
) -> bool {
    &&& updated.wf()
    &&& updated.schema == batch.schema
    &&& updated.row_count == batch.row_count
    &&& updated.columns.len() == batch.columns.len()
    &&& forall|i: int|
        #![trigger updated.columns@[i]]
        0 <= i < batch.columns.len() ==> {
            &&& column_type(updated.columns@[i]) == column_type(batch.columns@[i])
            &&& column_cells(updated.columns@[i]) == updated_cells(batch, mask, names, values, i)
        }
}

/// The context of a failure to put the updated columns together.
pub open spec fn rebuild_context() -> Seq<char> {
    "Failed to apply UPDATE assignments"@
}

/// What comes of putting the updated columns together.
pub open spec fn rebuilt(
    batch: Batch,
    mask: Seq<Option<bool>>,
    names: Seq<Seq<char>>,
    values: Seq<ArrayData>,
    result: Result<Batch, ExecError>,
) -> bool {
    match result {
        Ok(updated) => {
            &&& update_fits(batch, mask, names, values)
            &&& updates(updated, batch, mask, names, values)
        },
        Err(ExecError::Arrow { context: Some(context), .. }) => {
            &&& !update_fits(batch, mask, names, values)
            &&& context@ == rebuild_context()
        },
        Err(_) => false,
    }
}

/// What comes of assigning the values one after another: the first assignment that
/// is refused ends it, and otherwise the columns are put together.
pub open spec fn assigned(
    batch: Batch,
    mask: Seq<Option<bool>>,
    names: Seq<Seq<char>>,
    values: Seq<ArrayData>,
    check_sizes: bool,
    result: Result<Batch, ExecError>,
) -> bool {
    ||| {
        &&& names.len() == values.len()
        &&& all_accepted(batch, mask, names, values, check_sizes)
        &&& rebuilt(batch, mask, names, values, result)
    }
    ||| {
        &&& result is Err
        &&& exists|k: int|
            {
                &&& 0 <= k < values.len()
                &&& all_accepted(batch, mask, names, values.take(k), check_sizes)
                &&& refused(
                    batch,
                    mask,
                    names[k],
                    #[trigger] values[k],
                    check_sizes,
                    result->Err_0,
                )
            }
    }
}

/// Some value of a batch is another one after an update.
pub open spec fn modified(updated: Batch, batch: Batch) -> bool {
    exists|i: int, row: int|
        {
            &&& 0 <= i < batch.columns.len()
            &&& 0 <= row < batch.row_count
            &&& #[trigger] column_cells(updated.columns@[i])[row] != column_cells(
                batch.columns@[i],
            )[row]
        }
}

/// An update writes a column whose rows cannot be compared, since it holds runs inside
/// something else or runs of values that are not plain. Whether it changed any of them is
/// not looked into.
pub open spec fn touches_incomparable(batch: Batch, names: Seq<Seq<char>>) -> bool {
    exists|i: int|
        0 <= i < batch.columns.len() && names.contains(batch.names()[i]) && !comparable(
            column_type(#[trigger] batch.columns@[i]),
        )
}

/// Whether an update counts as a change: some value is another one now, or may be.
pub open spec fn counts_as_change(updated: Batch, batch: Batch, names: Seq<Seq<char>>) -> bool {
    modified(updated, batch) || touches_incomparable(batch, names)
}

/// What an update of a batch under a mask comes to, where evaluating the new values
/// gave `values` and then stopped with `failure`, if with any.
///
/// Without a selected row the batch stays as it is and nothing is evaluated. The
/// second part of a success says whether the update counts as a change.
pub open spec fn updated_under(
    batch: Batch,
    mask: Seq<Option<bool>>,
    names: Seq<Seq<char>>,
    values: Seq<ArrayData>,
    failure: Option<DataFusionError>,
    check_sizes: bool,
    result: Result<(Batch, bool), ExecError>,
) -> bool {
    if !any_selected(mask) {
        result == Ok::<(Batch, bool), ExecError>((batch, false))
    } else {
        match (failure, result) {
            (Some(error), _) => {
                &&& all_accepted(batch, mask, names, values, check_sizes)
                &&& result == Err::<(Batch, bool), ExecError>(ExecError::DataFusion(error))
            },
            (None, Ok((updated, changed))) => {
                &&& assigned(batch, mask, names, values, check_sizes, Ok(updated))
                &&& changed == counts_as_change(updated, batch, names)
            },
            (None, Err(error)) => assigned(batch, mask, names, values, check_sizes, Err(error)),
        }
    }
}

/// The columns that are assigned to.
pub open spec fn assigned_names<E>(assignments: Seq<(String, E)>) -> Seq<Seq<char>> {
    assignments.map_values(|assignment: (String, E)| assignment.0@)
}

/// An outcome that evaluating an expression on a batch may have.
pub open spec fn evaluates<E, V: Fn(&E, &Batch) -> Result<ArrayData, DataFusionError>>(
    evaluate: V,
    expression: E,
    batch: Batch,
    outcome: Result<ArrayData, DataFusionError>,
) -> bool {
    evaluate.ensures((&expression, &batch), outcome)
}

/// What evaluating gives are columns that Arrow can make arrays of.
pub open spec fn gives_arrays<E, V: Fn(&E, &Batch) -> Result<ArrayData, DataFusionError>>(
    evaluate: V,
) -> bool {
    forall|expression: E, batch: Batch, value: ArrayData|
        #[trigger] evaluates(evaluate, expression, batch, Ok(value)) ==> arrayable(value)
}

/// Evaluating may select a row of a batch.
pub open spec fn may_select<E, V: Fn(&E, &Batch) -> Result<ArrayData, DataFusionError>>(
    evaluate: V,
    batch: Batch,
    predicate: Option<&E>,
) -> bool {
    match predicate {
        None => batch.row_count > 0,
        Some(expression) => exists|column: ArrayData|
            {
                &&& #[trigger] evaluates(evaluate, *expression, batch, Ok(column))
                &&& column_type(column) is Boolean
                &&& any_selected(mask_of(column))
            },
    }
}

/// Evaluating the first expressions on a batch may give these values, and the next
/// one this failure, if there is one.
pub open spec fn evaluates_to<E, V: Fn(&E, &Batch) -> Result<ArrayData, DataFusionError>>(
    evaluate: V,
    assignments: Seq<(String, E)>,
    batch: Batch,
    values: Seq<ArrayData>,
    failure: Option<DataFusionError>,
) -> bool {
    &&& values.len() <= assignments.len()
    &&& forall|k: int|
        0 <= k < values.len() ==> evaluates(
            evaluate,
            assignments[k].1,
            batch,
            Ok(#[trigger] values[k]),
        )
    &&& failure matches Some(error) ==> {
        &&& values.len() < assignments.len()
        &&& evaluates(evaluate, assignments[values.len() as int].1, batch, Err(error))
    }
}

/// What an update of a batch under a mask may come to.
pub open spec fn may_update_under<E, V: Fn(&E, &Batch) -> Result<ArrayData, DataFusionError>>(
    evaluate: V,
    assignments: Seq<(String, E)>,
    batch: Batch,
    mask: Seq<Option<bool>>,
    check_sizes: bool,
    result: Result<(Batch, bool), ExecError>,
) -> bool {
    exists|values: Seq<ArrayData>, failure: Option<DataFusionError>|
        {
            &&& #[trigger] evaluates_to(evaluate, assignments, batch, values, failure)
            &&& updated_under(
                batch,
                mask,
                assigned_names(assignments),
                values,
                failure,
                check_sizes,
                result,
            )
        }
}

/// The refusal of a predicate that is not a truth value.
pub open spec fn not_boolean() -> Seq<char> {
    "WHERE predicate did not evaluate to boolean"@
}

/// What an update of a batch may come to: the predicate selects rows, and without
/// one all are.
pub open spec fn may_update<E, V: Fn(&E, &Batch) -> Result<ArrayData, DataFusionError>>(
    evaluate: V,
    assignments: Seq<(String, E)>,
    batch: Batch,
    predicate: Option<&E>,
    check_sizes: bool,
    result: Result<(Batch, bool), ExecError>,
) -> bool {
    match predicate {
        None => {
            let mask = all_rows(batch.row_count as nat);
            may_update_under(evaluate, assignments, batch, mask, check_sizes, result)
        },
        Some(expression) => exists|outcome: Result<ArrayData, DataFusionError>|
            {
                &&& #[trigger] evaluates(evaluate, *expression, batch, outcome)
                &&& match outcome {
                    Err(error) => result == Err::<(Batch, bool), ExecError>(
                        ExecError::DataFusion(error),
                    ),
                    Ok(column) => if column_type(column) is Boolean {
                        let mask = mask_of(column);
                        may_update_under(evaluate, assignments, batch, mask, check_sizes, result)
                    } else {
                        result matches Err(ExecError::Internal(message)) && message@
                            == not_boolean()
                    },
                }
            },
    }
}

/// The last place of a name in a list of names.
pub fn last_place(names: &Vec<String>, name: &str) -> (index: Option<usize>)
    ensures
        match index {
            Some(i) => last_named(texts(names@), name@) == Some(i as int),
            None => last_named(texts(names@), name@) is None,
        },
{
    let mut i: usize = names.len();
    assert(texts(names@).take(i as int) =~= texts(names@));
    while i > 0
        invariant
            i <= names.len(),
            last_named(texts(names@), name@) == last_named(texts(names@).take(i as int), name@),
        decreases i,
    {
        proof {
            let rest = texts(names@).take(i as int);
            assert(rest.drop_last() =~= texts(names@).take(i - 1));
            assert(rest.last() == names@[i - 1]@);
        }
        i = i - 1;
        if same_text(names[i].as_str(), name) {
            return Some(i);
        }
    }
    None
}

/// Reads which rows are selected. Without a column of truth values, all are.
pub fn selection_mask(predicate: Option<&ArrayData>, row_count: usize) -> (result: Result<
    Vec<Option<bool>>,
    ExecError,
>)
    requires
        predicate matches Some(column) ==> arrayable(*column),
    ensures
        match (predicate, result) {
            (None, Ok(mask)) => mask@ == all_rows(row_count as nat),
            (Some(column), Ok(mask)) => column_type(*column) is Boolean && mask@ == mask_of(
                *column,
            ),
            (Some(column), Err(ExecError::Internal(message))) => !(column_type(
                *column,
            ) is Boolean) && message@ == not_boolean(),
            _ => false,
        },
{
    match predicate {
        Some(column) => match boolean_values(column) {
            None => Err(
                ExecError::Internal("WHERE predicate did not evaluate to boolean".to_string()),
            ),
            Some(mask) => {
                assert(mask@ =~= mask_of(*column));
                Ok(mask)
            },
        },
        None => {
            let mut mask: Vec<Option<bool>> = Vec::new();
            while mask.len() < row_count
                invariant
                    mask.len() <= row_count,
                    forall|row: int| 0 <= row < mask.len() ==> #[trigger] mask[row] == Some(true),
                decreases row_count - mask.len(),
            {
                mask.push(Some(true));
            }
            assert(mask@ =~= all_rows(row_count as nat));
            Ok(mask)
        },
    }
}

/// Whether any row is selected.
pub fn has_matches(mask: &Vec<Option<bool>>) -> (any: bool)
    ensures
        any == any_selected(mask@),
{
    let mut row: usize = 0;
    while row < mask.len()
        invariant
            row <= mask.len(),
            forall|k: int| 0 <= k < row ==> #[trigger] mask[k] != Some(true),
        decreases mask.len() - row,
    {
        if let Some(selected) = mask[row] {
            if selected {
                assert(mask@[row as int] == Some(true));
                return true;
            }
        }
        row = row + 1;
    }
    false
}

/// Assignments in progress: the new column of each place that has one.
pub struct Assignments {
    /// The names of the batch's columns.
    pub names: Vec<String>,
    /// The new column at each place of a name that was assigned to.
    pub columns: Vec<Option<ArrayData>>,
}

/// The new column in the place of another one after one assignment. Values of
/// another type than the old ones stand there alone.
pub open spec fn replaced(
    column: Option<ArrayData>,
    mask: Seq<Option<bool>>,
    value: ArrayData,
    current: ArrayData,
) -> bool {
    column matches Some(new) && column_type(new) == column_type(value) && (column_type(value)
        == column_type(current) ==> column_cells(new) == blended(
        mask,
        column_cells(value),
        column_cells(current),
    ))
}

/// The new column at a place after the assignments.
pub open spec fn holds_update(
    column: Option<ArrayData>,
    batch: Batch,
    mask: Seq<Option<bool>>,
    names: Seq<Seq<char>>,
    values: Seq<ArrayData>,
    i: int,
) -> bool {
    match last_named(names, batch.names()[i]) {
        None => column is None,
        Some(k) => replaced(column, mask, values[k], batch.columns@[i]),
    }
}

impl Assignments {
    /// Arrow can make an array of every new column.
    pub open spec fn wf(self) -> bool {
        forall|i: int|
            0 <= i < self.columns.len() ==> (#[trigger] self.columns[i] matches Some(column)
                ==> arrayable(column))
    }

    /// One place for each column, with the new column where a name was assigned to.
    pub open spec fn holds(
        self,
        batch: Batch,
        mask: Seq<Option<bool>>,
        names: Seq<Seq<char>>,
        values: Seq<ArrayData>,
    ) -> bool {
        &&& texts(self.names@) == batch.names()
        &&& self.columns.len() == batch.columns.len()
        &&& names.len() == values.len()
        &&& forall|i: int|
            0 <= i < batch.columns.len() ==> holds_update(
                #[trigger] self.columns[i],
                batch,
                mask,
                names,
                values,
                i,
            )
    }

    /// Starts without any assignment.
    pub fn new(batch: &Batch) -> (assignments: Assignments)
        requires
            batch.wf(),
        ensures
            assignments.wf(),
            forall|mask: Seq<Option<bool>>|
                #[trigger] assignments.holds(*batch, mask, Seq::empty(), Seq::empty()),
    {
        let names = batch.column_names();
        let mut columns: Vec<Option<ArrayData>> = Vec::new();
        while columns.len() < batch.columns.len()
            invariant
                columns.len() <= batch.columns.len(),
                forall|i: int| 0 <= i < columns.len() ==> #[trigger] columns[i] is None,
            decreases batch.columns.len() - columns.len(),
        {
            columns.push(None);
        }
        Assignments { names, columns }
    }

    /// Checks whether it is easy to see that new values fit beside the old ones.
    fn fit_plainly(&self, batch: &Batch, name: &str, value: &ArrayData) -> (fit: bool)
        requires
            batch.wf(),
            texts(self.names@) == batch.names(),
            self.columns.len() == batch.columns.len(),
        ensures
            fit == plainly_fits_beside(*batch, name@, *value),
    {
        let mut i: usize = 0;
        assert(batch.names().len() == batch.columns.len());
        while i < self.names.len()
            invariant
                i <= self.names.len(),
                self.names.len() == batch.columns.len(),
                texts(self.names@) == batch.names(),
                forall|k: int|
                    0 <= k < i && batch.names()[k] == name@ ==> plainly_appendable(
                        seq![*value, #[trigger] batch.columns@[k]],
                    ),
            decreases self.names.len() - i,
        {
            assert(texts(self.names@)[i as int] == self.names@[i as int]@);
            if same_text(self.names[i].as_str(), name) {
                let current = &batch.columns[i];
                let both: Vec<&ArrayData> = vec![value, current];
                assert(both@.map_values(|column: &ArrayData| *column) =~= seq![*value, *current]);
                if !can_append(&both) {
                    assert(*current == batch.columns@[i as int]);
                    return false;
                }
            }
            i = i + 1;
        }
        true
    }

    /// Assigns new values to the columns of a name in the selected rows.
    ///
    /// Whether the name was assigned to before makes no difference: the rows that
    /// are not selected still have their old values, and the others get new ones.
    pub fn assign(
        &mut self,
        batch: &Batch,
        mask: &Vec<Option<bool>>,
        name: &str,
        value: &ArrayData,
        check_sizes: bool,
    ) -> (result: Result<(), ExecError>)
        requires
            batch.wf(),
            texts(old(self).names@) == batch.names(),
            old(self).columns.len() == batch.columns.len(),
            old(self).wf(),
            arrayable(*value),
            check_sizes || fits_beside(*batch, name@, *value),
        ensures
            final(self).wf(),
            match result {
                Ok(()) => {
                    &&& accepted(*batch, mask@, name@, *value, check_sizes)
                    &&& forall|names: Seq<Seq<char>>, values: Seq<ArrayData>|
                        #![trigger old(self).holds(*batch, mask@, names, values)]
                        old(self).holds(*batch, mask@, names, values) ==> final(self).holds(
                            *batch,
                            mask@,
                            names.push(name@),
                            values.push(*value),
                        )
                },
                Err(error) => {
                    &&& refused(*batch, mask@, name@, *value, check_sizes, error)
                    &&& *final(self) == *old(self)
                },
            },
    {
        let ghost before = *self;
        let last: usize = match last_place(&self.names, name) {
            None => {
                let mut message = "Column ".to_string();
                message.append(name);
                message.append(" not found in batch");
                return Err(ExecError::Plan(message));
            },
            Some(last) => last,
        };
        proof {
            lemma_last_named(batch.names(), name@);
        }
        assert(batch.names().len() == batch.columns.len());
        if check_sizes && !self.fit_plainly(batch, name, value) {
            let message = "The new values may not fit into one column with the old ones";
            return Err(ExecError::Overflow(message.to_string()));
        }
        assert(fits_beside(*batch, name@, *value));
        assert(arrayable(batch.columns@[last as int]));
        match zip_columns(mask, value, &batch.columns[last]) {
            Err(error) => return Err(ExecError::Arrow { error, context: None }),
            Ok(column) => self.columns.set(last, Some(column)),
        }
        assert(column_fits(
            batch.field(last as int),
            batch.columns@[last as int],
            batch.row_count as nat,
        ));
        let mut i: usize = 0;
        while i < self.names.len()
            invariant
                i <= self.names.len(),
                batch.wf(),
                self.names == before.names,
                texts(self.names@) == batch.names(),
                batch.names().len() == batch.columns.len(),
                self.columns.len() == batch.columns.len(),
                before.columns.len() == batch.columns.len(),
                self.wf(),
                arrayable(*value),
                fits_beside(*batch, name@, *value),
                column_cells(*value).len() == mask.len(),
                batch.row_count == mask.len(),
                forall|k: int|
                    0 <= k < batch.columns.len() ==> if (k < i || k == last) && batch.names()[k]
                        == name@ {
                        replaced(#[trigger] self.columns[k], mask@, *value, batch.columns@[k])
                    } else {
                        self.columns[k] == before.columns[k]
                    },
            decreases self.names.len() - i,
        {
            assert(texts(self.names@)[i as int] == self.names@[i as int]@);
            if i != last && same_text(self.names[i].as_str(), name) {
                let current = &batch.columns[i];
                proof {
                    assert(arrayable(batch.columns@[i as int]));
                    assert(column_fits(
                        batch.field(i as int),
                        batch.columns@[i as int],
                        batch.row_count as nat,
                    ));
                }
                let column = match zip_columns(mask, value, current) {
                    Ok(column) => column,
                    Err(_) => value.clone(),
                };
                self.columns.set(i, Some(column));
            }
            i = i + 1;
        }
        proof {
            assert forall|names: Seq<Seq<char>>, values: Seq<ArrayData>|
                #![trigger before.holds(*batch, mask@, names, values)]
                before.holds(*batch, mask@, names, values) implies self.holds(
                *batch,
                mask@,
                names.push(name@),
                values.push(*value),
            ) by {
                lemma_assigned(before, *self, *batch, mask@, names, values, name@, *value);
            }
        }
        Ok(())
    }

    /// Puts the columns together again, new ones where there are some.
    pub fn rebuild(&self, batch: &Batch, mask: &Vec<Option<bool>>) -> (result: Result<
        Batch,
        ExecError,
    >)
        requires
            batch.wf(),
            texts(self.names@) == batch.names(),
            self.columns.len() == batch.columns.len(),
            self.wf(),
        ensures
            forall|names: Seq<Seq<char>>, values: Seq<ArrayData>|
                #![trigger self.holds(*batch, mask@, names, values)]
                self.holds(*batch, mask@, names, values) ==> rebuilt(
                    *batch,
                    mask@,
                    names,
                    values,
                    result,
                ),
    {
        let mut columns: Vec<ArrayData> = Vec::new();
        let mut i: usize = 0;
        while i < batch.columns.len()
            invariant
                i <= batch.columns.len(),
                batch.wf(),
                self.columns.len() == batch.columns.len(),
                self.wf(),
                columns.len() == i,
                all_arrays(columns@),
                forall|k: int|
                    0 <= k < i ==> same_column(
                        #[trigger] columns[k],
                        self.current(*batch, k),
                    ),
            decreases batch.columns.len() - i,
        {
            assert(arrayable(batch.columns@[i as int]));
            let column = match &self.columns[i] {
                Some(column) => column.clone(),
                None => batch.columns[i].clone(),
            };
            columns.push(column);
            i = i + 1;
        }
        let ghost new_columns = columns@;
        proof {
            assert forall|names: Seq<Seq<char>>, values: Seq<ArrayData>|
                #![trigger self.holds(*batch, mask@, names, values)]
                self.holds(*batch, mask@, names, values) implies (columns_fit(
                *batch.schema,
                new_columns,
                batch.row_count as nat,
            ) <==> update_fits(*batch, mask@, names, values)) by {
                lemma_rebuilt(*self, *batch, mask@, names, values, new_columns);
            }
        }
        match try_new_with_row_count(batch.schema.clone(), columns, batch.row_count) {
            Ok(updated) => {
                proof {
                    lemma_same_columns_fit(updated, new_columns);
                    assert forall|names: Seq<Seq<char>>, values: Seq<ArrayData>|
                        #![trigger self.holds(*batch, mask@, names, values)]
                        self.holds(*batch, mask@, names, values) implies updates(
                        updated,
                        *batch,
                        mask@,
                        names,
                        values,
                    ) by {
                        lemma_rebuilt(*self, *batch, mask@, names, values, new_columns);
                        assert forall|i: int|
                            #![trigger updated.columns@[i]]
                            0 <= i < batch.columns.len() implies same_column(
                            updated.columns@[i],
                            new_columns[i],
                        ) by {}
                    }
                }
                Ok(updated)
            },
            Err(error) => {
                let context = Some("Failed to apply UPDATE assignments".to_string());
                Err(ExecError::Arrow { error, context })
            },
        }
    }

    /// Whether an update counts as a change.
    fn changes(&self, updated: &Batch, batch: &Batch) -> (changed: bool)
        requires
            batch.wf(),
            updated.wf(),
            updated.schema == batch.schema,
            updated.row_count == batch.row_count,
            updated.columns.len() == batch.columns.len(),
            self.columns.len() == batch.columns.len(),
        ensures
            forall|mask: Seq<Option<bool>>, names: Seq<Seq<char>>, values: Seq<ArrayData>|
                #![trigger self.holds(*batch, mask, names, values)]
                self.holds(*batch, mask, names, values) && updates(
                    *updated,
                    *batch,
                    mask,
                    names,
                    values,
                ) ==> changed == counts_as_change(*updated, *batch, names),
    {
        let mut i: usize = 0;
        while i < batch.columns.len()
            invariant
                i <= batch.columns.len(),
                batch.wf(),
                updated.wf(),
                updated.schema == batch.schema,
                updated.row_count == batch.row_count,
                updated.columns.len() == batch.columns.len(),
                self.columns.len() == batch.columns.len(),
                forall|k: int|
                    0 <= k < i && self.columns[k] is Some ==> {
                        &&& comparable(column_type(#[trigger] batch.columns@[k]))
                        &&& column_cells(updated.columns@[k]) == column_cells(batch.columns@[k])
                    },
            decreases batch.columns.len() - i,
        {
            proof {
                assert(column_fits(
                    batch.field(i as int),
                    batch.columns@[i as int],
                    batch.row_count as nat,
                ));
                assert(column_fits(
                    updated.field(i as int),
                    updated.columns@[i as int],
                    batch.row_count as nat,
                ));
                assert(arrayable(batch.columns@[i as int]));
                assert(arrayable(updated.columns@[i as int]));
            }
            if self.columns[i].is_some() {
                if !type_is_comparable(batch.columns[i].data_type()) || !same_rows(
                    &updated.columns[i],
                    &batch.columns[i],
                ) {
                    proof {
                        lemma_change_found(*self, *updated, *batch, i as int);
                    }
                    return true;
                }
            }
            i = i + 1;
        }
        proof {
            lemma_no_change_found(*self, *updated, *batch);
        }
        false
    }

    /// The column at a place, new if there is a new one.
    pub open spec fn current(self, batch: Batch, i: int) -> ArrayData {
        match self.columns[i] {
            Some(column) => column,
            None => batch.columns[i],
        }
    }
}

/// There is a new column where a name is assigned to.
proof fn lemma_assigned_to(
    assignments: Assignments,
    batch: Batch,
    mask: Seq<Option<bool>>,
    names: Seq<Seq<char>>,
    values: Seq<ArrayData>,
    i: int,
)
    requires
        assignments.holds(batch, mask, names, values),
        0 <= i < batch.columns.len(),
    ensures
        assignments.columns[i] is Some <==> names.contains(batch.names()[i]),
{
    lemma_last_named(names, batch.names()[i]);
    assert(holds_update(assignments.columns[i], batch, mask, names, values, i));
}

/// A new column that has other values, or cannot be compared, makes a change.
proof fn lemma_change_found(assignments: Assignments, updated: Batch, batch: Batch, i: int)
    requires
        batch.wf(),
        updated.wf(),
        updated.schema == batch.schema,
        updated.row_count == batch.row_count,
        updated.columns.len() == batch.columns.len(),
        0 <= i < batch.columns.len(),
        assignments.columns[i] is Some,
        !comparable(column_type(batch.columns@[i])) || column_cells(updated.columns@[i])
            != column_cells(batch.columns@[i]),
    ensures
        forall|mask: Seq<Option<bool>>, names: Seq<Seq<char>>, values: Seq<ArrayData>|
            #![trigger assignments.holds(batch, mask, names, values)]
            assignments.holds(batch, mask, names, values) ==> counts_as_change(
                updated,
                batch,
                names,
            ),
{
    assert forall|mask: Seq<Option<bool>>, names: Seq<Seq<char>>, values: Seq<ArrayData>|
        #![trigger assignments.holds(batch, mask, names, values)]
        assignments.holds(batch, mask, names, values) implies counts_as_change(
        updated,
        batch,
        names,
    ) by {
        lemma_assigned_to(assignments, batch, mask, names, values, i);
        if !comparable(column_type(batch.columns@[i])) {
            assert(touches_incomparable(batch, names));
        } else {
            let new = column_cells(updated.columns@[i]);
            let current = column_cells(batch.columns@[i]);
            assert(column_fits(updated.field(i), updated.columns@[i], updated.row_count as nat));
            assert(column_fits(batch.field(i), batch.columns@[i], batch.row_count as nat));
            assert(new.len() == current.len());
            if forall|row: int| 0 <= row < new.len() ==> new[row] == current[row] {
                assert(new =~= current);
            }
            let row = choose|row: int| 0 <= row < new.len() && new[row] != current[row];
            assert(column_cells(updated.columns@[i])[row] != column_cells(batch.columns@[i])[row]);
        }
    }
}

/// Where every new column can be compared and has the old values, there is no change.
proof fn lemma_no_change_found(assignments: Assignments, updated: Batch, batch: Batch)
    requires
        batch.wf(),
        updated.columns.len() == batch.columns.len(),
        forall|k: int|
            0 <= k < batch.columns.len() && assignments.columns[k] is Some ==> {
                &&& comparable(column_type(#[trigger] batch.columns@[k]))
                &&& column_cells(updated.columns@[k]) == column_cells(batch.columns@[k])
            },
    ensures
        forall|mask: Seq<Option<bool>>, names: Seq<Seq<char>>, values: Seq<ArrayData>|
            #![trigger assignments.holds(batch, mask, names, values)]
            assignments.holds(batch, mask, names, values) && updates(
                updated,
                batch,
                mask,
                names,
                values,
            ) ==> !counts_as_change(updated, batch, names),
{
    assert forall|mask: Seq<Option<bool>>, names: Seq<Seq<char>>, values: Seq<ArrayData>|
        #![trigger assignments.holds(batch, mask, names, values)]
        assignments.holds(batch, mask, names, values) && updates(
            updated,
            batch,
            mask,
            names,
            values,
        ) implies !counts_as_change(updated, batch, names) by {
        assert forall|i: int| 0 <= i < batch.columns.len() implies {
            &&& column_cells(#[trigger] updated.columns@[i]) == column_cells(batch.columns@[i])
            &&& names.contains(batch.names()[i]) ==> comparable(column_type(batch.columns@[i]))
        } by {
            lemma_assigned_to(assignments, batch, mask, names, values, i);
            if !names.contains(batch.names()[i]) {
                lemma_last_named(names, batch.names()[i]);
                assert(updated_cells(batch, mask, names, values, i) == column_cells(
                    batch.columns@[i],
                ));
            }
        }
        assert(!modified(updated, batch));
        if touches_incomparable(batch, names) {
            let i = choose|i: int|
                0 <= i < batch.columns.len() && names.contains(batch.names()[i]) && !comparable(
                    column_type(#[trigger] batch.columns@[i]),
                );
            assert(column_cells(updated.columns@[i]) == column_cells(batch.columns@[i]));
        }
    }
}

/// One more assignment, to each place of its name.
proof fn lemma_assigned(
    before: Assignments,
    after: Assignments,
    batch: Batch,
    mask: Seq<Option<bool>>,
    names: Seq<Seq<char>>,
    values: Seq<ArrayData>,
    name: Seq<char>,
    value: ArrayData,
)
    requires
        before.holds(batch, mask, names, values),
        after.names == before.names,
        after.columns.len() == before.columns.len(),
        forall|i: int|
            0 <= i < batch.columns.len() ==> if batch.names()[i] == name {
                replaced(#[trigger] after.columns[i], mask, value, batch.columns@[i])
            } else {
                after.columns[i] == before.columns[i]
            },
    ensures
        after.holds(batch, mask, names.push(name), values.push(value)),
{
    let all_names = names.push(name);
    let all_values = values.push(value);
    assert(all_names.drop_last() =~= names);
    assert forall|i: int| 0 <= i < batch.columns.len() implies holds_update(
        #[trigger] after.columns[i],
        batch,
        mask,
        all_names,
        all_values,
        i,
    ) by {
        lemma_last_named(names, batch.names()[i]);
        assert(holds_update(before.columns[i], batch, mask, names, values, i));
        if batch.names()[i] == name {
            assert(last_named(all_names, batch.names()[i]) == Some(names.len() as int));
        } else {
            assert(last_named(all_names, batch.names()[i]) == last_named(names, batch.names()[i]));
        }
    }
}

/// The columns that are put together again are those after the assignments.
proof fn lemma_rebuilt(
    assignments: Assignments,
    batch: Batch,
    mask: Seq<Option<bool>>,
    names: Seq<Seq<char>>,
    values: Seq<ArrayData>,
    columns: Seq<ArrayData>,
)
    requires
        batch.wf(),
        assignments.holds(batch, mask, names, values),
        columns.len() == batch.columns.len(),
        forall|i: int|
            0 <= i < columns.len() ==> same_column(
                #[trigger] columns[i],
                assignments.current(batch, i),
            ),
    ensures
        forall|i: int|
            #![trigger columns[i]]
            0 <= i < columns.len() ==> {
                &&& column_type(columns[i]) == updated_type(batch, names, values, i)
                &&& column_type(columns[i]) == column_type(batch.columns@[i]) ==> column_cells(
                    columns[i],
                ) == updated_cells(batch, mask, names, values, i)
            },
        columns_fit(*batch.schema, columns, batch.row_count as nat) <==> update_fits(
            batch,
            mask,
            names,
            values,
        ),
{
    assert forall|i: int| #![trigger columns[i]] 0 <= i < columns.len() implies {
        &&& column_type(columns[i]) == updated_type(batch, names, values, i)
        &&& column_type(columns[i]) == column_type(batch.columns@[i]) ==> column_cells(columns[i])
            == updated_cells(batch, mask, names, values, i)
    } by {
        assert(holds_update(assignments.columns[i], batch, mask, names, values, i));
    }
    assert forall|i: int| 0 <= i < columns.len() implies batch.field(i).column_type == column_type(
        #[trigger] batch.columns@[i],
    ) by {
        assert(column_fits(batch.field(i), batch.columns@[i], batch.row_count as nat));
    }
    if batch.accepts(columns) {
        assert forall|i: int| 0 <= i < batch.columns.len() implies #[trigger] column_update_fits(
            batch,
            mask,
            names,
            values,
            i,
        ) by {
            assert(column_fits(batch.field(i), columns[i], batch.row_count as nat));
            assert(batch.field(i).column_type == column_type(batch.columns@[i]));
        }
    }
    if update_fits(batch, mask, names, values) {
        assert forall|i: int| 0 <= i < columns.len() implies column_fits(
            batch.field(i),
            #[trigger] columns[i],
            batch.row_count as nat,
        ) by {
            assert(column_update_fits(batch, mask, names, values, i));
            assert(batch.field(i).column_type == column_type(batch.columns@[i]));
        }
        assert(batch.accepts(columns));
    }
}

/// Assigns values to columns one after another, in the selected rows.
fn assign_values(
    batch: &Batch,
    mask: &Vec<Option<bool>>,
    names: &Vec<String>,
    values: &Vec<ArrayData>,
    check_sizes: bool,
) -> (result: Result<Batch, ExecError>)
    requires
        batch.wf(),
        names.len() == values.len(),
        all_arrays(values@),
        check_sizes || forall|k: int|
            0 <= k < values.len() ==> fits_beside(*batch, names[k]@, #[trigger] values[k]),
    ensures
        assigned(*batch, mask@, texts(names@), values@, check_sizes, result),
{
    let mut assignments = Assignments::new(batch);
    let mut k: usize = 0;
    assert(texts(names@).take(0) =~= Seq::<Seq<char>>::empty());
    assert(values@.take(0) =~= Seq::<ArrayData>::empty());
    while k < values.len()
        invariant
            k <= values.len(),
            batch.wf(),
            names.len() == values.len(),
            all_arrays(values@),
            assignments.wf(),
            check_sizes || forall|j: int|
                0 <= j < values.len() ==> fits_beside(*batch, names[j]@, #[trigger] values[j]),
            assignments.holds(
                *batch,
                mask@,
                texts(names@).take(k as int),
                values@.take(k as int),
            ),
            all_accepted(*batch, mask@, texts(names@), values@.take(k as int), check_sizes),
        decreases values.len() - k,
    {
        let ghost before = values@.take(k as int);
        assert(texts(names@)[k as int] == names@[k as int]@);
        assert(arrayable(values@[k as int]));
        match assignments.assign(batch, mask, names[k].as_str(), &values[k], check_sizes) {
            Err(error) => {
                assert(refused(
                    *batch,
                    mask@,
                    texts(names@)[k as int],
                    values@[k as int],
                    check_sizes,
                    error,
                ));
                return Err(error);
            },
            Ok(()) => {},
        }
        proof {
            assert(texts(names@).take(k + 1) =~= texts(names@).take(k as int).push(
                names@[k as int]@,
            ));
            assert(values@.take(k + 1) =~= before.push(values@[k as int]));
            assert forall|j: int| 0 <= j < k + 1 implies accepted(
                *batch,
                mask@,
                texts(names@)[j],
                #[trigger] values@.take(k + 1)[j],
                check_sizes,
            ) by {
                if j < k {
                    assert(before[j] == values@.take(k + 1)[j]);
                }
            }
        }
        k = k + 1;
    }
    assert(texts(names@).take(k as int) =~= texts(names@));
    assert(values@.take(k as int) =~= values@);
    assignments.rebuild(batch, mask)
}

/// Assigns values to columns one after another, in the selected rows.
pub fn apply_values(
    batch: &Batch,
    mask: &Vec<Option<bool>>,
    names: &Vec<String>,
    values: &Vec<ArrayData>,
) -> (result: Result<Batch, ExecError>)
    requires
        batch.wf(),
        names.len() == values.len(),
        all_arrays(values@),
        forall|k: int|
            0 <= k < values.len() ==> fits_beside(*batch, names[k]@, #[trigger] values[k]),
    ensures
        assigned(*batch, mask@, texts(names@), values@, false, result),
{
    assign_values(batch, mask, names, values, false)
}

/// Assigns values to columns one after another, in the selected rows, as long as it
/// is easy to see that they fit into one column with the old ones.
pub fn apply_values_plainly(
    batch: &Batch,
    mask: &Vec<Option<bool>>,
    names: &Vec<String>,
    values: &Vec<ArrayData>,
) -> (result: Result<Batch, ExecError>)
    requires
        batch.wf(),
        names.len() == values.len(),
        all_arrays(values@),
    ensures
        assigned(*batch, mask@, texts(names@), values@, true, result),
{
    assign_values(batch, mask, names, values, true)
}

/// Updates the selected rows of a batch, each column by the value of its expression.
fn update_selected<E, V: Fn(&E, &Batch) -> Result<ArrayData, DataFusionError>>(
    batch: Batch,
    mask: &Vec<Option<bool>>,
    assignments: &Vec<(String, E)>,
    evaluate: V,
    check_sizes: bool,
) -> (result: Result<(Batch, bool), ExecError>)
    requires
        batch.wf(),
        forall|expression: &E, input: &Batch| evaluate.requires((expression, input)),
        gives_arrays(evaluate),
        !check_sizes && any_selected(mask@) ==> forall|k: int, value: ArrayData|
            0 <= k < assignments.len() && #[trigger] evaluates(
                evaluate,
                assignments[k].1,
                batch,
                Ok(value),
            ) ==> fits_beside(batch, assignments[k].0@, value),
    ensures
        may_update_under(evaluate, assignments@, batch, mask@, check_sizes, result),
{
    let ghost names = assigned_names(assignments@);
    let ghost mut values: Seq<ArrayData> = Seq::empty();
    if !has_matches(mask) {
        assert(evaluates_to(evaluate, assignments@, batch, values, None));
        return Ok((batch, false));
    }
    let mut state = Assignments::new(&batch);
    let mut k: usize = 0;
    assert(names.take(0) =~= Seq::<Seq<char>>::empty());
    while k < assignments.len()
        invariant
            k <= assignments.len(),
            batch.wf(),
            names == assigned_names(assignments@),
            forall|expression: &E, input: &Batch| evaluate.requires((expression, input)),
            gives_arrays(evaluate),
            state.wf(),
            check_sizes || forall|j: int, value: ArrayData|
                0 <= j < assignments.len() && #[trigger] evaluates(
                    evaluate,
                    assignments[j].1,
                    batch,
                    Ok(value),
                ) ==> fits_beside(batch, assignments[j].0@, value),
            values.len() == k,
            any_selected(mask@),
            state.holds(batch, mask@, names.take(k as int), values),
            all_accepted(batch, mask@, names, values, check_sizes),
            evaluates_to(evaluate, assignments@, batch, values, None),
        decreases assignments.len() - k,
    {
        let outcome = evaluate(&assignments[k].1, &batch);
        assert(evaluates(evaluate, assignments@[k as int].1, batch, outcome));
        match outcome {
            Err(error) => {
                assert(evaluates_to(evaluate, assignments@, batch, values, Some(error)));
                return Err(ExecError::DataFusion(error));
            },
            Ok(value) => {
                let ghost before = values;
                proof {
                    values = values.push(value);
                    assert(before =~= values.take(k as int));
                    assert(evaluates_to(evaluate, assignments@, batch, values, None));
                    assert(names[k as int] == assignments@[k as int].0@);
                }
                match state.assign(&batch, mask, assignments[k].0.as_str(), &value, check_sizes) {
                    Err(error) => {
                        assert(refused(
                            batch,
                            mask@,
                            names[k as int],
                            values[k as int],
                            check_sizes,
                            error,
                        ));
                        return Err(error);
                    },
                    Ok(()) => {},
                }
                proof {
                    assert(names.take(k + 1) =~= names.take(k as int).push(names[k as int]));
                    assert forall|j: int| 0 <= j < values.len() implies accepted(
                        batch,
                        mask@,
                        names[j],
                        #[trigger] values[j],
                        check_sizes,
                    ) by {
                        if j < k {
                            assert(before[j] == values[j]);
                        }
                    }
                }
            },
        }
        k = k + 1;
    }
    assert(names.take(k as int) =~= names);
    assert(state.holds(batch, mask@, names, values));
    match state.rebuild(&batch, mask) {
        Err(error) => Err(error),
        Ok(updated) => {
            let changed = state.changes(&updated, &batch);
            Ok((updated, changed))
        },
    }
}

/// Updates the rows of a batch for which the predicate says true, each column by the
/// value of its expression. Without a predicate all rows are updated.
pub(crate) fn update_rows<E, V: Fn(&E, &Batch) -> Result<ArrayData, DataFusionError>>(
    batch: Batch,
    predicate: Option<&E>,
    assignments: &Vec<(String, E)>,
    evaluate: V,
    check_sizes: bool,
) -> (result: Result<(Batch, bool), ExecError>)
    requires
        batch.wf(),
        forall|expression: &E, input: &Batch| evaluate.requires((expression, input)),
        gives_arrays(evaluate),
        !check_sizes && may_select(evaluate, batch, predicate) ==> forall|
            k: int,
            value: ArrayData,
        |
            0 <= k < assignments.len() && #[trigger] evaluates(
                evaluate,
                assignments[k].1,
                batch,
                Ok(value),
            ) ==> fits_beside(batch, assignments[k].0@, value),
    ensures
        may_update(evaluate, assignments@, batch, predicate, check_sizes, result),
{
    let row_count = batch.row_count;
    match predicate {
        None => match selection_mask(None, row_count) {
            Err(error) => Err(error),
            Ok(mask) => {
                assert(any_selected(mask@) ==> batch.row_count > 0);
                update_selected(batch, &mask, assignments, evaluate, check_sizes)
            },
        },
        Some(expression) => {
            let outcome = evaluate(expression, &batch);
            assert(evaluates(evaluate, *expression, batch, outcome));
            match outcome {
                Err(error) => Err(ExecError::DataFusion(error)),
                Ok(column) => match selection_mask(Some(&column), row_count) {
                    Err(error) => Err(error),
                    Ok(mask) => update_selected(batch, &mask, assignments, evaluate, check_sizes),
                },
            }
        },
    }
}

/// An update leaves every row alone that is not selected.
pub proof fn unselected_rows_stay(
    updated: Batch,
    batch: Batch,
    mask: Seq<Option<bool>>,
    names: Seq<Seq<char>>,
    values: Seq<ArrayData>,
    i: int,
    row: int,
)
    requires
        batch.wf(),
        updates(updated, batch, mask, names, values),
        0 <= i < batch.columns.len(),
        0 <= row < batch.row_count,
        mask[row] != Some(true),
    ensures
        column_cells(updated.columns@[i])[row] == column_cells(batch.columns@[i])[row],
{
    assert(column_fits(batch.field(i), batch.columns@[i], batch.row_count as nat));
    assert(column_cells(updated.columns@[i]) == updated_cells(batch, mask, names, values, i));
}

/// An update gives every selected row the value of the last assignment to a column's name.
pub proof fn selected_rows_change(
    updated: Batch,
    batch: Batch,
    mask: Seq<Option<bool>>,
    names: Seq<Seq<char>>,
    values: Seq<ArrayData>,
    i: int,
    k: int,
    row: int,
)
    requires
        batch.wf(),
        updates(updated, batch, mask, names, values),
        0 <= i < batch.columns.len(),
        last_named(names, batch.names()[i]) == Some(k),
        0 <= row < batch.row_count,
        mask[row] == Some(true),
    ensures
        column_cells(updated.columns@[i])[row] == column_cells(values[k])[row],
{
    assert(column_fits(batch.field(i), batch.columns@[i], batch.row_count as nat));
    assert(column_cells(updated.columns@[i]) == updated_cells(batch, mask, names, values, i));
}

/// An update leaves every column alone that nothing is assigned to.
pub proof fn unassigned_columns_stay(
    updated: Batch,
    batch: Batch,
    mask: Seq<Option<bool>>,
    names: Seq<Seq<char>>,
    values: Seq<ArrayData>,
    i: int,
)
    requires
        updates(updated, batch, mask, names, values),
        0 <= i < batch.columns.len(),
        !names.contains(batch.names()[i]),
    ensures
        same_column(updated.columns@[i], batch.columns@[i]),
{
    lemma_last_named(names, batch.names()[i]);
    assert(column_cells(updated.columns@[i]) == updated_cells(batch, mask, names, values, i));
}

/// An update keeps the number of rows and the schema. It says that it changed
/// something exactly if a value is another one now, as long as it writes no column whose
/// rows cannot be compared.
pub proof fn updates_keep_the_shape(
    batch: Batch,
    mask: Seq<Option<bool>>,
    names: Seq<Seq<char>>,
    values: Seq<ArrayData>,
    failure: Option<DataFusionError>,
    check_sizes: bool,
    updated: Batch,
    changed: bool,
)
    requires
        updated_under(batch, mask, names, values, failure, check_sizes, Ok((updated, changed))),
    ensures
        updated.row_count == batch.row_count,
        updated.schema == batch.schema,
        updated.columns.len() == batch.columns.len(),
        !touches_incomparable(batch, names) ==> changed == modified(updated, batch),
        modified(updated, batch) ==> changed,
        changed ==> any_selected(mask),
{
    if !any_selected(mask) && modified(updated, batch) {
        let (i, row) = choose|i: int, row: int|
            {
                &&& 0 <= i < batch.columns.len()
                &&& 0 <= row < batch.row_count
                &&& #[trigger] column_cells(updated.columns@[i])[row] != column_cells(
                    batch.columns@[i],
                )[row]
            };
        assert(false);
    }
}

/// What could be assigned once can be assigned again.
proof fn lemma_accepted_again(
    once: Batch,
    batch: Batch,
    mask: Seq<Option<bool>>,
    names: Seq<Seq<char>>,
    values: Seq<ArrayData>,
    k: int,
    again: ArrayData,
)
    requires
        batch.wf(),
        updates(once, batch, mask, names, values),
        0 <= k < values.len(),
        assignable(batch, mask, names[k], values[k]),
        same_column(again, values[k]),
    ensures
        accepted(once, mask, names[k], again, false),
{
    assert(once.names() == batch.names());
    assert(batch.names().len() == batch.columns.len());
    let at = last_named(batch.names(), names[k])->Some_0;
    lemma_last_named(batch.names(), names[k]);
    assert(column_type(once.columns@[at]) == column_type(batch.columns@[at]));
    assert(column_fits(batch.field(at), batch.columns@[at], batch.row_count as nat));
    assert(column_fits(once.field(at), once.columns@[at], once.row_count as nat));
}

/// The same values assigned twice give what they give once: the second update goes
/// through, and changes nothing.
pub proof fn updating_twice_is_updating_once(
    once: Batch,
    batch: Batch,
    mask: Seq<Option<bool>>,
    names: Seq<Seq<char>>,
    values: Seq<ArrayData>,
    again: Seq<ArrayData>,
)
    requires
        batch.wf(),
        names.len() == values.len(),
        all_accepted(batch, mask, names, values, false),
        rebuilt(batch, mask, names, values, Ok(once)),
        same_columns(again, values),
    ensures
        all_accepted(once, mask, names, again, false),
        update_fits(once, mask, names, again),
        forall|twice: Batch|
            #[trigger] updates(twice, once, mask, names, again) ==> {
                &&& twice.schema == once.schema
                &&& twice.row_count == once.row_count
                &&& same_columns(twice.columns@, once.columns@)
                &&& !modified(twice, once)
            },
{
    assert(batch.names().len() == batch.columns.len());
    assert(once.names() == batch.names());
    assert forall|k: int| 0 <= k < again.len() implies accepted(
        once,
        mask,
        names[k],
        #[trigger] again[k],
        false,
    ) by {
        assert(accepted(batch, mask, names[k], values[k], false));
        lemma_accepted_again(once, batch, mask, names, values, k, again[k]);
    }
    assert forall|i: int| 0 <= i < once.columns.len() implies {
        &&& #[trigger] column_update_fits(once, mask, names, again, i)
        &&& updated_cells(once, mask, names, again, i) == column_cells(once.columns@[i])
    } by {
        lemma_last_named(names, batch.names()[i]);
        assert(column_update_fits(batch, mask, names, values, i));
        assert(column_fits(batch.field(i), batch.columns@[i], batch.row_count as nat));
        assert(column_fits(once.field(i), once.columns@[i], once.row_count as nat));
        if let Some(k) = last_named(names, batch.names()[i]) {
            assert(same_column(again[k], values[k]));
        }
        assert(updated_cells(once, mask, names, again, i) =~= column_cells(once.columns@[i]));
    }
    assert forall|twice: Batch| #[trigger] updates(twice, once, mask, names, again) implies {
        &&& twice.schema == once.schema
        &&& twice.row_count == once.row_count
        &&& same_columns(twice.columns@, once.columns@)
        &&& !modified(twice, once)
    } by {
        assert forall|i: int| 0 <= i < twice.columns.len() implies same_column(
            #[trigger] twice.columns@[i],
            once.columns@[i],
        ) by {
            assert(column_update_fits(once, mask, names, again, i));
        }
    }
}

/// Evaluating an expression gives on one batch what it gives on another.
pub open spec fn gives_the_same<E, V: Fn(&E, &Batch) -> Result<ArrayData, DataFusionError>>(
    evaluate: V,
    expression: E,
    one: Batch,
    other: Batch,
) -> bool {
    forall|column: ArrayData, outcome: Result<ArrayData, DataFusionError>|
        #[trigger] evaluates(evaluate, expression, one, Ok(column)) && #[trigger] evaluates(
            evaluate,
            expression,
            other,
            outcome,
        ) ==> (outcome matches Ok(again) && same_column(again, column))
}

/// A second update left everything as it was, and did not count as a change.
pub open spec fn nothing_new(
    once: Batch,
    names: Seq<Seq<char>>,
    second: Result<(Batch, bool), ExecError>,
) -> bool {
    second matches Ok((twice, changed)) && {
        &&& twice.schema == once.schema
        &&& twice.row_count == once.row_count
        &&& same_columns(twice.columns@, once.columns@)
        &&& !modified(twice, once)
        &&& !touches_incomparable(once, names) ==> !changed
    }
}

/// The same update twice under one mask.
proof fn lemma_update_again<E, V: Fn(&E, &Batch) -> Result<ArrayData, DataFusionError>>(
    evaluate: V,
    assignments: Seq<(String, E)>,
    batch: Batch,
    mask: Seq<Option<bool>>,
    check_sizes: bool,
    once: Batch,
    changed: bool,
    second: Result<(Batch, bool), ExecError>,
)
    requires
        batch.wf(),
        forall|k: int|
            0 <= k < assignments.len() ==> gives_the_same(
                evaluate,
                (#[trigger] assignments[k]).1,
                batch,
                once,
            ),
        may_update_under(evaluate, assignments, batch, mask, check_sizes, Ok((once, changed))),
        may_update_under(evaluate, assignments, once, mask, false, second),
    ensures
        nothing_new(once, assigned_names(assignments), second),
{
    let names = assigned_names(assignments);
    let first: Result<(Batch, bool), ExecError> = Ok((once, changed));
    let (values, none) = choose|values: Seq<ArrayData>, failure: Option<DataFusionError>|
        {
            &&& #[trigger] evaluates_to(evaluate, assignments, batch, values, failure)
            &&& updated_under(batch, mask, names, values, failure, check_sizes, first)
        };
    let (again, failure) = choose|values: Seq<ArrayData>, failure: Option<DataFusionError>|
        {
            &&& #[trigger] evaluates_to(evaluate, assignments, once, values, failure)
            &&& updated_under(once, mask, names, values, failure, false, second)
        };
    if any_selected(mask) {
        assert(rebuilt(batch, mask, names, values, Ok(once)));
        assert(values.len() == assignments.len());
        assert forall|k: int| 0 <= k < again.len() implies same_column(
            #[trigger] again[k],
            values[k],
        ) by {
            assert(gives_the_same(evaluate, assignments[k].1, batch, once));
            assert(evaluates(evaluate, assignments[k].1, batch, Ok(values[k])));
            assert(evaluates(evaluate, assignments[k].1, once, Ok(again[k])));
        }
        if let Some(error) = failure {
            let k = again.len() as int;
            assert(gives_the_same(evaluate, assignments[k].1, batch, once));
            assert(evaluates(evaluate, assignments[k].1, batch, Ok(values[k])));
            assert(evaluates(evaluate, assignments[k].1, once, Err(error)));
        }
        assert forall|k: int| 0 <= k < values.len() implies accepted(
            batch,
            mask,
            names[k],
            #[trigger] values[k],
            false,
        ) by {
            assert(accepted(batch, mask, names[k], values[k], check_sizes));
        }
        assert forall|k: int| 0 <= k < again.len() implies accepted(
            once,
            mask,
            names[k],
            #[trigger] again[k],
            false,
        ) by {
            assert(accepted(batch, mask, names[k], values[k], false));
            lemma_accepted_again(once, batch, mask, names, values, k, again[k]);
        }
        if again.len() == names.len() {
            updating_twice_is_updating_once(once, batch, mask, names, values, again);
        }
    }
}

/// The same update twice gives what it gives once, if on its outcome the predicate selects
/// the rows that it selected before, and every expression gives the values that it gave
/// before. So it is of constants, and of expressions over columns that are not assigned to.
pub proof fn the_same_update_twice<E, V: Fn(&E, &Batch) -> Result<ArrayData, DataFusionError>>(
    evaluate: V,
    assignments: Seq<(String, E)>,
    batch: Batch,
    predicate: Option<&E>,
    check_sizes: bool,
    once: Batch,
    changed: bool,
    second: Result<(Batch, bool), ExecError>,
)
    requires
        batch.wf(),
        predicate matches Some(expression) ==> gives_the_same(evaluate, *expression, batch, once),
        forall|k: int|
            0 <= k < assignments.len() ==> gives_the_same(
                evaluate,
                (#[trigger] assignments[k]).1,
                batch,
                once,
            ),
        may_update(evaluate, assignments, batch, predicate, check_sizes, Ok((once, changed))),
        may_update(evaluate, assignments, once, predicate, false, second),
    ensures
        nothing_new(once, assigned_names(assignments), second),
{
    let first: Result<(Batch, bool), ExecError> = Ok((once, changed));
    match predicate {
        None => {
            let mask = all_rows(batch.row_count as nat);
            assert(once.row_count == batch.row_count);
            lemma_update_again(
                evaluate,
                assignments,
                batch,
                mask,
                check_sizes,
                once,
                changed,
                second,
            );
        },
        Some(expression) => {
            let column = choose|column: ArrayData|
                {
                    &&& #[trigger] evaluates(evaluate, *expression, batch, Ok(column))
                    &&& column_type(column) is Boolean
                    &&& may_update_under(
                        evaluate,
                        assignments,
                        batch,
                        mask_of(column),
                        check_sizes,
                        first,
                    )
                };
            let outcome = choose|outcome: Result<ArrayData, DataFusionError>|
                {
                    &&& #[trigger] evaluates(evaluate, *expression, once, outcome)
                    &&& match outcome {
                        Err(error) => second == Err::<(Batch, bool), ExecError>(
                            ExecError::DataFusion(error),
                        ),
                        Ok(column) => if column_type(column) is Boolean {
                            let mask = mask_of(column);
                            may_update_under(evaluate, assignments, once, mask, false, second)
                        } else {
                            second matches Err(ExecError::Internal(message)) && message@
                                == not_boolean()
                        },
                    }
                };
            lemma_update_again(
                evaluate,
                assignments,
                batch,
                mask_of(column),
                check_sizes,
                once,
                changed,
                second,
            );
        },
    }
}

} // verus!
