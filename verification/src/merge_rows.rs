//! The rows of a MERGE: which class each joined row falls into, and what the actions of
//! the statement make of it.
//!
//! A joined row has both sides, only a source, or only a target. A side is missing where
//! all of its columns are null. In rows with both sides, assignments set columns of the
//! target; in rows with only a source, insert expressions give the columns of the target.

use datafusion::arrow::array::ArrayData;
use datafusion::error::DataFusionError;
use vstd::prelude::*;

use crate::assignments::{assigned_names, evaluates, gives_arrays, last_place, no_such_column};
use crate::batch::{
    Batch, last_named, lemma_kept_len, lemma_last_named, lemma_same_columns_fit, selects,
};
use crate::columns::{
    Cell, all_arrays, arrayable, column_cells, column_fits, holds_value, kept, kept_count,
    same_column, same_columns, try_new_with_row_count, valid_rows,
};
use crate::error::ExecError;
use crate::text::texts;

verus! {

/// A row has a value in some of these columns.
pub open spec fn side_present(batch: Batch, from: int, to: int, row: int) -> bool {
    exists|i: int|
        from <= i < to && holds_value(#[trigger] column_cells(batch.columns@[i])[row])
}

/// A joined row has a target: some column of the target holds a value. The target's
/// columns come first, and there are `target_field_count` of them.
pub open spec fn has_target(batch: Batch, target_field_count: int, row: int) -> bool {
    side_present(batch, 0, target_field_count, row)
}

/// A joined row has a source: some column of the source holds a value.
pub open spec fn has_source(batch: Batch, target_field_count: int, row: int) -> bool {
    side_present(batch, target_field_count, batch.columns.len() as int, row)
}

/// Which rows of a joined batch have both sides.
pub open spec fn matched_mask(batch: Batch, target_field_count: int) -> Seq<bool> {
    Seq::new(
        batch.row_count as nat,
        |row: int|
            has_target(batch, target_field_count, row) && has_source(
                batch,
                target_field_count,
                row,
            ),
    )
}

/// Which rows of a joined batch have only a source.
pub open spec fn not_matched_mask(batch: Batch, target_field_count: int) -> Seq<bool> {
    Seq::new(
        batch.row_count as nat,
        |row: int|
            !has_target(batch, target_field_count, row) && has_source(
                batch,
                target_field_count,
                row,
            ),
    )
}

/// Tells which rows have a value in some of these columns.
fn rows_present(batch: &Batch, from: usize, to: usize) -> (present: Vec<bool>)
    requires
        batch.wf(),
        from <= to <= batch.columns.len(),
    ensures
        present@ == Seq::new(
            batch.row_count as nat,
            |row: int| side_present(*batch, from as int, to as int, row),
        ),
{
    let mut present: Vec<bool> = Vec::new();
    while present.len() < batch.row_count
        invariant
            present.len() <= batch.row_count,
            forall|row: int| 0 <= row < present.len() ==> !#[trigger] present[row],
        decreases batch.row_count - present.len(),
    {
        present.push(false);
    }
    let mut i: usize = from;
    while i < to
        invariant
            batch.wf(),
            from <= i <= to <= batch.columns.len(),
            present.len() == batch.row_count,
            forall|row: int|
                0 <= row < present.len() ==> #[trigger] present[row] == side_present(
                    *batch,
                    from as int,
                    i as int,
                    row,
                ),
        decreases to - i,
    {
        let ghost cells = column_cells(batch.columns@[i as int]);
        assert(column_fits(
            batch.field(i as int),
            batch.columns@[i as int],
            batch.row_count as nat,
        ));
        assert(arrayable(batch.columns@[i as int]));
        let valid = valid_rows(&batch.columns[i]);
        let mut next: Vec<bool> = Vec::new();
        let mut row: usize = 0;
        while row < batch.row_count
            invariant
                row <= batch.row_count,
                from <= i < batch.columns.len(),
                next.len() == row,
                cells == column_cells(batch.columns@[i as int]),
                cells.len() == batch.row_count,
                valid@ == cells.map_values(|cell: Cell| holds_value(cell)),
                present.len() == batch.row_count,
                forall|r: int|
                    0 <= r < present.len() ==> #[trigger] present[r] == side_present(
                        *batch,
                        from as int,
                        i as int,
                        r,
                    ),
                forall|r: int|
                    0 <= r < row ==> #[trigger] next[r] == side_present(
                        *batch,
                        from as int,
                        i + 1,
                        r,
                    ),
            decreases batch.row_count - row,
        {
            assert(valid@[row as int] == holds_value(
                column_cells(batch.columns@[i as int])[row as int],
            ));
            next.push(present[row] || valid[row]);
            row = row + 1;
        }
        present = next;
        i = i + 1;
    }
    present
}

/// Tells the rows of a joined batch apart: those with both sides, and those with
/// only a source.
pub fn classify_rows(batch: &Batch, target_field_count: usize) -> (masks: (Vec<bool>, Vec<bool>))
    requires
        batch.wf(),
        target_field_count < batch.columns.len(),
    ensures
        masks.0@ == matched_mask(*batch, target_field_count as int),
        masks.1@ == not_matched_mask(*batch, target_field_count as int),
{
    let mut matched: Vec<bool> = Vec::new();
    let mut not_matched: Vec<bool> = Vec::new();
    let target = rows_present(batch, 0, target_field_count);
    let source = rows_present(batch, target_field_count, batch.columns.len());
    let ghost count = target_field_count as int;
    let mut row: usize = 0;
    while row < batch.row_count
        invariant
            row <= batch.row_count,
            count == target_field_count,
            target@ == Seq::new(
                batch.row_count as nat,
                |row: int| side_present(*batch, 0, count, row),
            ),
            source@ == Seq::new(
                batch.row_count as nat,
                |row: int| side_present(*batch, count, batch.columns.len() as int, row),
            ),
            matched@ =~= matched_mask(*batch, count).take(row as int),
            not_matched@ =~= not_matched_mask(*batch, count).take(row as int),
        decreases batch.row_count - row,
    {
        matched.push(target[row] && source[row]);
        not_matched.push(!target[row] && source[row]);
        row = row + 1;
    }
    assert(matched@ =~= matched_mask(*batch, count));
    assert(not_matched@ =~= not_matched_mask(*batch, count));
    (matched, not_matched)
}

/// A joined row is never both updated and inserted, and it is neither exactly if it
/// has no source: if all columns of the source are null.
pub proof fn rows_fall_into_one_class(batch: Batch, target_field_count: int, row: int)
    requires
        0 <= row < batch.row_count,
    ensures
        ({
            let matched = matched_mask(batch, target_field_count)[row];
            let not_matched = not_matched_mask(batch, target_field_count)[row];
            &&& !(matched && not_matched)
            &&& (!matched && !not_matched) == (forall|i: int|
                target_field_count <= i < batch.columns.len() ==> !holds_value(
                    #[trigger] column_cells(batch.columns@[i])[row],
                ))
        }),
{
}

/// Every row of a batch has a source.
pub open spec fn all_have_sources(batch: Batch, target_field_count: int) -> bool {
    forall|row: int|
        0 <= row < batch.row_count ==> #[trigger] has_source(batch, target_field_count, row)
}

/// The place that a kept row had before: the `k`th place at which the mask says true.
pub open spec fn kept_place(mask: Seq<bool>, k: int) -> int
    decreases mask.len(),
{
    if mask.len() == 0 || (mask.last() && k == kept_count(mask.drop_last())) {
        mask.len() - 1
    } else {
        kept_place(mask.drop_last(), k)
    }
}

/// A kept row is the row at its place before.
proof fn lemma_kept_place<T>(rows: Seq<T>, mask: Seq<bool>, k: int)
    requires
        rows.len() == mask.len(),
        0 <= k < kept_count(mask),
    ensures
        0 <= kept_place(mask, k) < mask.len(),
        mask[kept_place(mask, k)],
        kept(rows, mask)[k] == rows[kept_place(mask, k)],
    decreases rows.len(),
{
    lemma_kept_len(rows, mask);
    if rows.len() > 0 {
        lemma_kept_len(rows.drop_last(), mask.drop_last());
        if !(mask.last() && k == kept_count(mask.drop_last())) {
            lemma_kept_place(rows.drop_last(), mask.drop_last(), k);
        }
    }
}

/// No row without a source is kept of a joined batch.
pub proof fn kept_rows_have_a_source(
    selection: Batch,
    batch: Batch,
    target_field_count: int,
    mask: Seq<bool>,
)
    requires
        batch.wf(),
        0 <= target_field_count <= batch.columns.len(),
        mask == matched_mask(batch, target_field_count) || mask == not_matched_mask(
            batch,
            target_field_count,
        ),
        selects(selection, batch, mask),
    ensures
        all_have_sources(selection, target_field_count),
{
    assert forall|row: int| 0 <= row < selection.row_count implies #[trigger] has_source(
        selection,
        target_field_count,
        row,
    ) by {
        let before = kept_place(mask, row);
        lemma_kept_place(mask, mask, row);
        assert(mask[before]);
        assert(has_source(batch, target_field_count, before));
        let i = choose|i: int|
            target_field_count <= i < batch.columns.len() && holds_value(
                #[trigger] column_cells(batch.columns@[i])[before],
            );
        assert(column_fits(batch.field(i), batch.columns@[i], batch.row_count as nat));
        lemma_kept_place(column_cells(batch.columns@[i]), mask, row);
        assert(column_cells(selection.columns@[i])[row] == column_cells(
            batch.columns@[i],
        )[before]);
    }
}

/// The columns of a batch, with new ones where there are some.
pub open spec fn with_columns(columns: Seq<ArrayData>, new: Seq<Option<ArrayData>>) -> Seq<
    ArrayData,
> {
    Seq::new(
        columns.len(),
        |i: int|
            match new[i] {
                Some(column) => column,
                None => columns[i],
            },
    )
}

/// What assignments put into the columns: into each column of the target the value of
/// the last assignment to its name.
pub open spec fn set_columns(
    batch: Batch,
    target_field_count: int,
    names: Seq<Seq<char>>,
    values: Seq<ArrayData>,
) -> Seq<Option<ArrayData>> {
    Seq::new(
        batch.columns.len() as nat,
        |i: int|
            match last_named(names, batch.names()[i]) {
                Some(k) if i < target_field_count => Some(values[k]),
                _ => None,
            },
    )
}

/// What inserted values put into the columns: one into each of the first columns.
pub open spec fn filled_columns(batch: Batch, values: Seq<ArrayData>) -> Seq<Option<ArrayData>> {
    Seq::new(
        batch.columns.len() as nat,
        |i: int|
            if i < values.len() {
                Some(values[i])
            } else {
                None
            },
    )
}

/// What comes of putting new columns into a batch.
pub open spec fn put_together(
    batch: Batch,
    new: Seq<Option<ArrayData>>,
    context: Seq<char>,
    result: Result<Batch, ExecError>,
) -> bool {
    match result {
        Ok(changed) => {
            &&& batch.accepts(with_columns(batch.columns@, new))
            &&& changed.wf()
            &&& changed.schema == batch.schema
            &&& changed.row_count == batch.row_count
            &&& same_columns(changed.columns@, with_columns(batch.columns@, new))
        },
        Err(ExecError::Arrow { context: Some(given), .. }) => {
            &&& !batch.accepts(with_columns(batch.columns@, new))
            &&& given@ == context
        },
        Err(_) => false,
    }
}

/// The context of a failure to set columns of matched rows.
pub open spec fn update_context() -> Seq<char> {
    "Failed to apply MERGE UPDATE assignments"@
}

/// The context of a failure to make rows to insert.
pub open spec fn insert_context() -> Seq<char> {
    "Failed to apply MERGE INSERT expressions"@
}

/// The refusal of more values to insert than the target has columns.
pub open spec fn too_many_values() -> Seq<char> {
    "MERGE INSERT has more values than the target has columns"@
}

/// The names of the target's columns.
pub open spec fn target_names(batch: Batch, target_field_count: int) -> Seq<Seq<char>> {
    batch.names().take(target_field_count)
}

/// What matched rows come to, given the values of the assignments. The first
/// assignment to a column that the target does not have is refused.
pub open spec fn updated_with(
    batch: Batch,
    target_field_count: int,
    names: Seq<Seq<char>>,
    values: Seq<ArrayData>,
    result: Result<Batch, ExecError>,
) -> bool {
    let known = target_names(batch, target_field_count);
    if forall|k: int| 0 <= k < names.len() ==> known.contains(#[trigger] names[k]) {
        put_together(
            batch,
            set_columns(batch, target_field_count, names, values),
            update_context(),
            result,
        )
    } else {
        exists|k: int|
            {
                &&& 0 <= k < names.len()
                &&& !known.contains(#[trigger] names[k])
                &&& forall|j: int| 0 <= j < k ==> known.contains(#[trigger] names[j])
                &&& result matches Err(ExecError::Plan(message)) && message@ == no_such_column(
                    names[k],
                )
            }
    }
}

/// What rows to insert come to, given the values of the expressions. Columns without
/// an expression stay as they were joined.
pub open spec fn inserted_with(
    batch: Batch,
    target_field_count: int,
    values: Seq<ArrayData>,
    result: Result<Batch, ExecError>,
) -> bool {
    if values.len() <= target_field_count {
        put_together(batch, filled_columns(batch, values), insert_context(), result)
    } else {
        result matches Err(ExecError::Plan(message)) && message@ == too_many_values()
    }
}

/// The columns behind references, where there are some.
spec fn chosen(columns: Seq<Option<&ArrayData>>) -> Seq<Option<ArrayData>> {
    columns.map_values(
        |column: Option<&ArrayData>|
            match column {
                Some(column) => Some(*column),
                None => None,
            },
    )
}

/// Puts new columns into a batch.
fn put_columns(batch: &Batch, new: &Vec<Option<&ArrayData>>, context: &str) -> (result: Result<
    Batch,
    ExecError,
>)
    requires
        batch.wf(),
        new.len() == batch.columns.len(),
        forall|i: int|
            0 <= i < new.len() ==> (#[trigger] new[i] matches Some(column) ==> arrayable(*column)),
    ensures
        put_together(*batch, chosen(new@), context@, result),
{
    let ghost given = chosen(new@);
    let ghost wanted = with_columns(batch.columns@, given);
    let mut columns: Vec<ArrayData> = Vec::new();
    let mut i: usize = 0;
    while i < batch.columns.len()
        invariant
            batch.wf(),
            i <= batch.columns.len(),
            new.len() == batch.columns.len(),
            forall|i: int|
                0 <= i < new.len() ==> (#[trigger] new[i] matches Some(column) ==> arrayable(
                    *column,
                )),
            wanted.len() == batch.columns.len(),
            forall|k: int|
                0 <= k < wanted.len() ==> #[trigger] wanted[k] == (match new[k] {
                    Some(column) => *column,
                    None => batch.columns@[k],
                }),
            columns.len() == i,
            all_arrays(columns@),
            forall|k: int| 0 <= k < i ==> same_column(#[trigger] columns[k], wanted[k]),
        decreases batch.columns.len() - i,
    {
        assert(arrayable(batch.columns@[i as int]));
        assert(same_column(wanted[i as int], wanted[i as int]));
        let column = match new[i] {
            Some(column) => column.clone(),
            None => batch.columns[i].clone(),
        };
        columns.push(column);
        i = i + 1;
    }
    let ghost built = columns@;
    proof {
        assert forall|k: int| 0 <= k < wanted.len() implies {
            &&& column_fits(batch.field(k), built[k], batch.row_count as nat) == column_fits(
                batch.field(k),
                #[trigger] wanted[k],
                batch.row_count as nat,
            )
        } by {
            assert(same_column(built[k], wanted[k]));
        }
        lemma_accepts_same(*batch, built, wanted);
    }
    match try_new_with_row_count(batch.schema.clone(), columns, batch.row_count) {
        Ok(changed) => {
            proof {
                lemma_same_columns_fit(changed, built);
                assert forall|k: int| 0 <= k < changed.columns.len() implies same_column(
                    #[trigger] changed.columns@[k],
                    wanted[k],
                ) by {
                    assert(same_column(changed.columns@[k], built[k]));
                    assert(same_column(built[k], wanted[k]));
                }
            }
            Ok(changed)
        },
        Err(error) => {
            let context = Some(context.to_string());
            Err(ExecError::Arrow { error, context })
        },
    }
}

/// Columns that agree with others fit where the others fit.
proof fn lemma_accepts_same(batch: Batch, a: Seq<ArrayData>, b: Seq<ArrayData>)
    requires
        same_columns(a, b),
    ensures
        batch.accepts(a) == batch.accepts(b),
{
    if batch.accepts(b) {
        assert forall|i: int| 0 <= i < a.len() implies column_fits(
            batch.field(i),
            #[trigger] a[i],
            batch.row_count as nat,
        ) by {
            assert(same_column(a[i], b[i]));
            assert(column_fits(batch.field(i), b[i], batch.row_count as nat));
        }
        assert(batch.accepts(a));
    }
    if batch.accepts(a) {
        assert forall|i: int| 0 <= i < b.len() implies column_fits(
            batch.field(i),
            #[trigger] b[i],
            batch.row_count as nat,
        ) by {
            assert(same_column(a[i], b[i]));
            assert(column_fits(batch.field(i), a[i], batch.row_count as nat));
        }
        assert(batch.accepts(b));
    }
}

/// Sets columns of the target in all rows of a batch: under each name that is
/// assigned to, the last value that is assigned to it.
pub fn update_columns(
    batch: &Batch,
    target_field_count: usize,
    names: &Vec<String>,
    values: &Vec<ArrayData>,
) -> (result: Result<Batch, ExecError>)
    requires
        batch.wf(),
        target_field_count <= batch.columns.len(),
        names.len() == values.len(),
        all_arrays(values@),
    ensures
        updated_with(*batch, target_field_count as int, texts(names@), values@, result),
{
    let ghost count = target_field_count as int;
    let ghost assigned = texts(names@);
    let ghost known = target_names(*batch, count);
    assert(batch.names().len() == batch.columns.len());
    let mut target: Vec<String> = batch.column_names();
    let all = batch.column_names();
    assert(texts(all@).len() == batch.columns.len());
    assert(texts(target@).len() == batch.columns.len());
    target.truncate(target_field_count);
    assert(texts(target@) =~= known);
    let mut k: usize = 0;
    while k < names.len()
        invariant
            k <= names.len(),
            assigned == texts(names@),
            texts(target@) == known,
            known == target_names(*batch, target_field_count as int),
            forall|j: int| 0 <= j < k ==> known.contains(#[trigger] assigned[j]),
        decreases names.len() - k,
    {
        assert(assigned[k as int] == names@[k as int]@);
        proof {
            lemma_last_named(known, assigned[k as int]);
        }
        if last_place(&target, names[k].as_str()).is_none() {
            let mut message = "Column ".to_string();
            message.append(names[k].as_str());
            message.append(" not found in batch");
            assert(!known.contains(assigned[k as int]));
            return Err(ExecError::Plan(message));
        }
        assert(known.contains(assigned[k as int]));
        k = k + 1;
    }
    let ghost wanted = set_columns(*batch, count, assigned, values@);
    let mut new: Vec<Option<&ArrayData>> = Vec::new();
    let mut i: usize = 0;
    while i < batch.columns.len()
        invariant
            i <= batch.columns.len(),
            target_field_count <= batch.columns.len(),
            names.len() == values.len(),
            all_arrays(values@),
            assigned == texts(names@),
            texts(all@) == batch.names(),
            texts(all@).len() == batch.columns.len(),
            wanted == set_columns(*batch, target_field_count as int, assigned, values@),
            new.len() == i,
            forall|j: int|
                #![trigger new[j]]
                0 <= j < i ==> {
                    &&& new[j] matches Some(column) ==> arrayable(*column)
                    &&& wanted[j] == (match new[j] {
                        Some(column) => Some(*column),
                        None => None,
                    })
                },
        decreases batch.columns.len() - i,
    {
        assert(texts(all@)[i as int] == all@[i as int]@);
        proof {
            lemma_last_named(assigned, batch.names()[i as int]);
        }
        if i < target_field_count {
            match last_place(names, all[i].as_str()) {
                None => new.push(None),
                Some(k) => {
                    assert(arrayable(values@[k as int]));
                    new.push(Some(&values[k]))
                },
            }
        } else {
            new.push(None);
        }
        i = i + 1;
    }
    assert(wanted =~= chosen(new@));
    put_columns(batch, &new, "Failed to apply MERGE UPDATE assignments")
}

/// Fills the first columns in all rows of a batch, one value for each.
pub fn insert_columns(
    batch: &Batch,
    target_field_count: usize,
    values: &Vec<ArrayData>,
) -> (result: Result<Batch, ExecError>)
    requires
        batch.wf(),
        target_field_count <= batch.columns.len(),
        all_arrays(values@),
    ensures
        inserted_with(*batch, target_field_count as int, values@, result),
{
    if values.len() > target_field_count {
        let message = "MERGE INSERT has more values than the target has columns";
        return Err(ExecError::Plan(message.to_string()));
    }
    let ghost wanted = filled_columns(*batch, values@);
    let mut new: Vec<Option<&ArrayData>> = Vec::new();
    let mut i: usize = 0;
    while i < batch.columns.len()
        invariant
            i <= batch.columns.len(),
            values.len() <= batch.columns.len(),
            all_arrays(values@),
            wanted == filled_columns(*batch, values@),
            new.len() == i,
            forall|j: int|
                #![trigger new[j]]
                0 <= j < i ==> {
                    &&& new[j] matches Some(column) ==> arrayable(*column)
                    &&& wanted[j] == (match new[j] {
                        Some(column) => Some(*column),
                        None => None,
                    })
                },
        decreases batch.columns.len() - i,
    {
        if i < values.len() {
            assert(arrayable(values@[i as int]));
            new.push(Some(&values[i]));
        } else {
            new.push(None);
        }
        i = i + 1;
    }
    assert(wanted =~= chosen(new@));
    put_columns(batch, &new, "Failed to apply MERGE INSERT expressions")
}

/// A matched row has, under each column of the target that is assigned to, the value of
/// the last assignment to it, and its joined value elsewhere.
pub proof fn matched_rows_take_their_assignments(
    changed: Batch,
    batch: Batch,
    target_field_count: int,
    names: Seq<Seq<char>>,
    values: Seq<ArrayData>,
    i: int,
    row: int,
)
    requires
        updated_with(batch, target_field_count, names, values, Ok(changed)),
        0 <= i < batch.columns.len(),
        0 <= row < batch.row_count,
    ensures
        column_cells(changed.columns@[i])[row] == (match last_named(names, batch.names()[i]) {
            Some(k) if i < target_field_count => column_cells(values[k])[row],
            _ => column_cells(batch.columns@[i])[row],
        }),
{
    let new = set_columns(batch, target_field_count, names, values);
    assert(same_column(changed.columns@[i], with_columns(batch.columns@, new)[i]));
}

/// An inserted row has in each of the first columns what the expression of that place
/// gives, and its joined value in the others.
pub proof fn inserted_rows_take_their_values(
    changed: Batch,
    batch: Batch,
    target_field_count: int,
    values: Seq<ArrayData>,
    i: int,
    row: int,
)
    requires
        inserted_with(batch, target_field_count, values, Ok(changed)),
        0 <= i < batch.columns.len(),
        0 <= row < batch.row_count,
    ensures
        values.len() <= target_field_count,
        column_cells(changed.columns@[i])[row] == (if i < values.len() {
            column_cells(values[i])[row]
        } else {
            column_cells(batch.columns@[i])[row]
        }),
{
    let new = filled_columns(batch, values);
    assert(same_column(changed.columns@[i], with_columns(batch.columns@, new)[i]));
}

/// An action on the target leaves the source as it was joined: the rows keep theirs.
pub proof fn actions_leave_the_source(
    changed: Batch,
    batch: Batch,
    target_field_count: int,
    new: Seq<Option<ArrayData>>,
    context: Seq<char>,
)
    requires
        put_together(batch, new, context, Ok(changed)),
        forall|i: int| target_field_count <= i < batch.columns.len() ==> #[trigger] new[i] is None,
        0 <= target_field_count,
    ensures
        forall|i: int|
            target_field_count <= i < batch.columns.len() ==> same_column(
                #[trigger] changed.columns@[i],
                batch.columns@[i],
            ),
        all_have_sources(batch, target_field_count) ==> all_have_sources(
            changed,
            target_field_count,
        ),
{
    let wanted = with_columns(batch.columns@, new);
    assert forall|i: int| target_field_count <= i < batch.columns.len() implies same_column(
        #[trigger] changed.columns@[i],
        batch.columns@[i],
    ) by {
        assert(new[i] is None);
        assert(same_column(changed.columns@[i], wanted[i]));
    }
    if all_have_sources(batch, target_field_count) {
        assert forall|row: int| 0 <= row < changed.row_count implies #[trigger] has_source(
            changed,
            target_field_count,
            row,
        ) by {
            assert(has_source(batch, target_field_count, row));
            let i = choose|i: int|
                target_field_count <= i < batch.columns.len() && holds_value(
                    #[trigger] column_cells(batch.columns@[i])[row],
                );
            assert(same_column(changed.columns@[i], batch.columns@[i]));
            assert(holds_value(column_cells(changed.columns@[i])[row]));
        }
    }
}

/// Evaluating the first expressions on a batch may give these values, and the next one
/// this failure.
pub open spec fn fails_after<E, V: Fn(&E, &Batch) -> Result<ArrayData, DataFusionError>>(
    evaluate: V,
    expressions: Seq<E>,
    batch: Batch,
    values: Seq<ArrayData>,
    error: DataFusionError,
) -> bool {
    &&& values.len() < expressions.len()
    &&& evaluates(evaluate, expressions[values.len() as int], batch, Err(error))
    &&& forall|k: int|
        0 <= k < values.len() ==> evaluates(
            evaluate,
            expressions[k],
            batch,
            Ok(#[trigger] values[k]),
        )
}

/// An outcome that evaluating expressions on a batch one after another may have: the
/// value of each, or the failure of the first that fails.
pub open spec fn all_evaluate<E, V: Fn(&E, &Batch) -> Result<ArrayData, DataFusionError>>(
    evaluate: V,
    expressions: Seq<E>,
    batch: Batch,
    outcome: Result<Seq<ArrayData>, DataFusionError>,
) -> bool {
    match outcome {
        Ok(values) => {
            &&& values.len() == expressions.len()
            &&& forall|k: int|
                0 <= k < values.len() ==> evaluates(
                    evaluate,
                    expressions[k],
                    batch,
                    Ok(#[trigger] values[k]),
                )
        },
        Err(error) => exists|values: Seq<ArrayData>|
            #[trigger] fails_after(evaluate, expressions, batch, values, error),
    }
}

/// The expressions of assignments.
pub open spec fn assigned_expressions<E>(assignments: Seq<(String, E)>) -> Seq<E> {
    assignments.map_values(|assignment: (String, E)| assignment.1)
}

/// What a merge may make of the rows with both sides. Where there are none, or the
/// statement does not update, nothing is evaluated.
pub open spec fn may_update_matched<E, V: Fn(&E, &Batch) -> Result<ArrayData, DataFusionError>>(
    evaluate: V,
    assignments: Option<Vec<(String, E)>>,
    batch: Batch,
    target_field_count: int,
    result: Result<Option<Batch>, ExecError>,
) -> bool {
    let mask = matched_mask(batch, target_field_count);
    if assignments is None || kept_count(mask) == 0 {
        result == Ok::<Option<Batch>, ExecError>(None)
    } else {
        exists|rows: Batch, outcome: Result<Seq<ArrayData>, DataFusionError>|
            {
                &&& rows.wf()
                &&& selects(rows, batch, mask)
                &&& #[trigger] all_evaluate(
                    evaluate,
                    assigned_expressions(assignments->Some_0@),
                    rows,
                    outcome,
                )
                &&& match (outcome, result) {
                    (Err(error), _) => result == Err::<Option<Batch>, ExecError>(
                        ExecError::DataFusion(error),
                    ),
                    (Ok(values), Ok(Some(changed))) => updated_with(
                        rows,
                        target_field_count,
                        assigned_names(assignments->Some_0@),
                        values,
                        Ok(changed),
                    ),
                    (Ok(values), Err(error)) => updated_with(
                        rows,
                        target_field_count,
                        assigned_names(assignments->Some_0@),
                        values,
                        Err(error),
                    ),
                    _ => false,
                }
            }
    }
}

/// What a merge may make of the rows with only a source. Where there are none, or the
/// statement does not insert, nothing is evaluated.
pub open spec fn may_insert<E, V: Fn(&E, &Batch) -> Result<ArrayData, DataFusionError>>(
    evaluate: V,
    expressions: Option<Vec<E>>,
    batch: Batch,
    target_field_count: int,
    result: Result<Option<Batch>, ExecError>,
) -> bool {
    let mask = not_matched_mask(batch, target_field_count);
    if expressions is None || kept_count(mask) == 0 {
        result == Ok::<Option<Batch>, ExecError>(None)
    } else {
        exists|rows: Batch, outcome: Result<Seq<ArrayData>, DataFusionError>|
            {
                &&& rows.wf()
                &&& selects(rows, batch, mask)
                &&& #[trigger] all_evaluate(evaluate, expressions->Some_0@, rows, outcome)
                &&& match (outcome, result) {
                    (Err(error), _) => result == Err::<Option<Batch>, ExecError>(
                        ExecError::DataFusion(error),
                    ),
                    (Ok(values), Ok(Some(changed))) => inserted_with(
                        rows,
                        target_field_count,
                        values,
                        Ok(changed),
                    ),
                    (Ok(values), Err(error)) => inserted_with(
                        rows,
                        target_field_count,
                        values,
                        Err(error),
                    ),
                    _ => false,
                }
            }
    }
}

/// The expressions behind references.
pub open spec fn plain<E>(expressions: Seq<&E>) -> Seq<E> {
    expressions.map_values(|expression: &E| *expression)
}

/// Evaluates expressions on a batch one after another.
pub(crate) fn evaluate_all<E, V: Fn(&E, &Batch) -> Result<ArrayData, DataFusionError>>(
    evaluate: &V,
    expressions: &Vec<&E>,
    batch: &Batch,
) -> (result: Result<Vec<ArrayData>, DataFusionError>)
    requires
        forall|expression: &E, input: &Batch| evaluate.requires((expression, input)),
        gives_arrays(*evaluate),
    ensures
        all_evaluate(
            *evaluate,
            plain(expressions@),
            *batch,
            match result {
                Ok(values) => Ok(values@),
                Err(error) => Err(error),
            },
        ),
        result matches Ok(values) ==> all_arrays(values@),
{
    let ghost all = plain(expressions@);
    let mut values: Vec<ArrayData> = Vec::new();
    let mut k: usize = 0;
    while k < expressions.len()
        invariant
            k <= expressions.len(),
            all == plain(expressions@),
            forall|expression: &E, input: &Batch| evaluate.requires((expression, input)),
            gives_arrays(*evaluate),
            values.len() == k,
            all_arrays(values@),
            forall|j: int|
                0 <= j < k ==> evaluates(*evaluate, all[j], *batch, Ok(#[trigger] values@[j])),
        decreases expressions.len() - k,
    {
        let outcome = evaluate(expressions[k], batch);
        assert(evaluates(*evaluate, all[k as int], *batch, outcome));
        match outcome {
            Err(error) => {
                let ghost failed: Result<Seq<ArrayData>, DataFusionError> = Err(error);
                assert(exists|given: Seq<ArrayData>|
                    #[trigger] fails_after(*evaluate, all, *batch, given, failed->Err_0)) by {
                    assert(fails_after(*evaluate, all, *batch, values@, failed->Err_0));
                }
                assert(all_evaluate(*evaluate, all, *batch, failed));
                return Err(error);
            },
            Ok(value) => {
                values.push(value);
            },
        }
        k = k + 1;
    }
    Ok(values)
}

/// How many rows a merge keeps of a joined batch.
pub open spec fn merged_count(
    batch: Batch,
    target_field_count: int,
    updates: bool,
    inserts: bool,
) -> nat {
    (if updates { kept_count(matched_mask(batch, target_field_count)) } else { 0 }) + (if inserts {
        kept_count(not_matched_mask(batch, target_field_count))
    } else {
        0
    })
}

/// Two masks that keep no row in common keep no more rows than there are.
proof fn lemma_disjoint_counts(a: Seq<bool>, b: Seq<bool>)
    requires
        a.len() == b.len(),
        forall|i: int| 0 <= i < a.len() ==> !(#[trigger] a[i] && b[i]),
    ensures
        kept_count(a) + kept_count(b) <= a.len(),
    decreases a.len(),
{
    if a.len() > 0 {
        assert forall|i: int| 0 <= i < a.drop_last().len() implies !(#[trigger] a.drop_last()[i]
            && b.drop_last()[i]) by {
            assert(!(a[i] && b[i]));
        }
        lemma_disjoint_counts(a.drop_last(), b.drop_last());
        assert(!(a[a.len() - 1] && b[a.len() - 1]));
    }
}

/// No joined row is kept twice: a merge keeps no more rows of a batch than it has.
pub proof fn rows_are_kept_once(
    batch: Batch,
    target_field_count: int,
    updates: bool,
    inserts: bool,
)
    ensures
        merged_count(batch, target_field_count, updates, inserts) <= batch.row_count,
{
    let matched = matched_mask(batch, target_field_count);
    let not_matched = not_matched_mask(batch, target_field_count);
    lemma_disjoint_counts(matched, not_matched);
}

} // verus!
