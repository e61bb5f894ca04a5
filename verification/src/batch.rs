//! Batches of rows.

use std::sync::Arc;

use datafusion::arrow::array::ArrayData;
use datafusion::arrow::datatypes::{Field, Schema};
use vstd::prelude::*;

use crate::capacity::{appendable, can_append, plainly_appendable};
use crate::columns::{
    Cell, FieldInfo, all_arrays, column_cells, column_fits, column_type, columns_fit, field_info,
    field_names, fields_of, filter_record_batch, kept, kept_count, same_column, same_columns,
    schema_fields, try_new_with_row_count,
};
use crate::error::ExecError;
use crate::text::{same_text, texts};

verus! {

/// Rows that share a schema, stored column by column.
#[derive(Debug)]
pub struct Batch {
    /// The names and types of the columns.
    pub schema: Arc<Schema>,
    /// One column for each field of the schema.
    pub columns: Vec<ArrayData>,
    /// The length of every column.
    pub row_count: usize,
}

/// The first place of a name in a list of names.
pub open spec fn first_named(names: Seq<Seq<char>>, name: Seq<char>) -> Option<int>
    decreases names.len(),
{
    if names.len() == 0 {
        None
    } else {
        match first_named(names.drop_last(), name) {
            Some(i) => Some(i),
            None => if names.last() == name {
                Some(names.len() - 1)
            } else {
                None
            },
        }
    }
}

/// The last place of a name in a list of names.
pub open spec fn last_named(names: Seq<Seq<char>>, name: Seq<char>) -> Option<int>
    decreases names.len(),
{
    if names.len() == 0 {
        None
    } else if names.last() == name {
        Some(names.len() - 1)
    } else {
        last_named(names.drop_last(), name)
    }
}

/// A name's first place holds the name, and no earlier place does.
pub proof fn lemma_first_named(names: Seq<Seq<char>>, name: Seq<char>)
    ensures
        match first_named(names, name) {
            Some(i) => {
                &&& 0 <= i < names.len()
                &&& names[i] == name
                &&& forall|k: int| 0 <= k < i ==> names[k] != name
            },
            None => !names.contains(name),
        },
    decreases names.len(),
{
    if names.len() > 0 {
        let before = names.drop_last();
        lemma_first_named(before, name);
        assert forall|k: int| 0 <= k < before.len() && !before.contains(name) implies names[k]
            != name by {
            assert(before[k] == names[k]);
        }
        assert(forall|k: int| 0 <= k < before.len() ==> before[k] == names[k]);
    }
}

/// A name's last place holds the name, and no later place does.
pub proof fn lemma_last_named(names: Seq<Seq<char>>, name: Seq<char>)
    ensures
        match last_named(names, name) {
            Some(i) => {
                &&& 0 <= i < names.len()
                &&& names[i] == name
                &&& forall|k: int| i < k < names.len() ==> names[k] != name
            },
            None => !names.contains(name),
        },
    decreases names.len(),
{
    if names.len() > 0 {
        lemma_last_named(names.drop_last(), name);
        if names.last() != name {
            match last_named(names, name) {
                Some(i) => {
                    assert forall|k: int| i < k < names.len() implies names[k] != name by {
                        if k < names.len() - 1 {
                            assert(names.drop_last()[k] == names[k]);
                        }
                    }
                },
                None => {
                    assert forall|k: int| 0 <= k < names.len() implies names[k] != name by {
                        if k < names.len() - 1 {
                            assert(names.drop_last()[k] == names[k]);
                        }
                    }
                },
            }
        }
    }
}

/// A mask keeps as many rows of a column as it says true.
pub proof fn lemma_kept_len<T>(rows: Seq<T>, mask: Seq<bool>)
    requires
        rows.len() == mask.len(),
    ensures
        kept(rows, mask).len() == kept_count(mask),
        kept_count(mask) <= mask.len(),
    decreases rows.len(),
{
    if rows.len() > 0 {
        lemma_kept_len(rows.drop_last(), mask.drop_last());
    }
}

/// What a mask keeps was there before, in a row for which the mask says true.
pub proof fn lemma_kept_source<T>(rows: Seq<T>, mask: Seq<bool>, value: T)
    requires
        rows.len() == mask.len(),
        kept(rows, mask).contains(value),
    ensures
        exists|i: int| 0 <= i < rows.len() && mask[i] && #[trigger] rows[i] == value,
    decreases rows.len(),
{
    if rows.len() > 0 {
        let before = kept(rows.drop_last(), mask.drop_last());
        let k = choose|k: int| 0 <= k < kept(rows, mask).len() && kept(rows, mask)[k] == value;
        if mask.last() && k == before.len() {
            assert(rows[rows.len() - 1] == value);
        } else {
            assert(before[k] == value);
            lemma_kept_source(rows.drop_last(), mask.drop_last(), value);
            let i = choose|i: int|
                0 <= i < rows.drop_last().len() && mask.drop_last()[i]
                    && #[trigger] rows.drop_last()[i] == value;
            assert(rows[i] == value);
        }
    }
}

/// The rows of a batch that a mask keeps, in order, and nothing else.
pub open spec fn selects(selection: Batch, batch: Batch, mask: Seq<bool>) -> bool {
    &&& selection.schema == batch.schema
    &&& selection.row_count == kept_count(mask)
    &&& selection.columns.len() == batch.columns.len()
    &&& forall|i: int|
        #![trigger selection.columns@[i]]
        0 <= i < batch.columns.len() ==> {
            &&& column_type(selection.columns@[i]) == column_type(batch.columns@[i])
            &&& column_cells(selection.columns@[i]) == kept(column_cells(batch.columns@[i]), mask)
        }
}

impl Batch {
    /// Every column fits its field and has one value for each row, and Arrow can make an
    /// array of it.
    pub open spec fn wf(self) -> bool {
        self.accepts(self.columns@) && all_arrays(self.columns@)
    }

    /// Whether these columns could stand in the place of the batch's own.
    pub open spec fn accepts(self, columns: Seq<ArrayData>) -> bool {
        columns_fit(*self.schema, columns, self.row_count as nat)
    }

    /// The names of the columns, in order.
    pub open spec fn names(self) -> Seq<Seq<char>> {
        field_names(*self.schema)
    }

    /// The fields of the schema, in order.
    pub open spec fn fields(self) -> Seq<Arc<Field>> {
        schema_fields(*self.schema)
    }

    /// What the schema says of a column.
    pub open spec fn field(self, i: int) -> FieldInfo {
        field_info(*schema_fields(*self.schema)[i])
    }

    /// Lists the names of the columns, in order.
    pub fn column_names(&self) -> (names: Vec<String>)
        ensures
            texts(names@) == self.names(),
    {
        let fields = fields_of(&self.schema);
        let mut names: Vec<String> = Vec::new();
        let mut i: usize = 0;
        while i < fields.len()
            invariant
                i <= fields.len(),
                fields@ == schema_fields(*self.schema),
                names.len() == i,
                forall|k: int| 0 <= k < i ==> (#[trigger] names[k])@ == field_info(*fields[k]).name,
            decreases fields.len() - i,
        {
            names.push(fields[i].name().clone());
            i = i + 1;
        }
        assert(texts(names@) =~= self.names());
        names
    }

    /// The place of the first column with a name.
    pub fn column_index(&self, name: &str) -> (index: Option<usize>)
        ensures
            match index {
                Some(i) => first_named(self.names(), name@) == Some(i as int),
                None => first_named(self.names(), name@) is None,
            },
    {
        let names = self.column_names();
        let mut i: usize = 0;
        while i < names.len()
            invariant
                i <= names.len(),
                texts(names@) == self.names(),
                first_named(self.names().take(i as int), name@) is None,
            decreases names.len() - i,
        {
            proof {
                let next = self.names().take(i + 1);
                assert(next.drop_last() =~= self.names().take(i as int));
                assert(next.last() == texts(names@)[i as int]);
            }
            if same_text(names[i].as_str(), name) {
                proof {
                    lemma_first_named_in_prefix(self.names(), name@, i + 1);
                }
                return Some(i);
            }
            i = i + 1;
        }
        assert(self.names().take(names.len() as int) =~= self.names());
        None
    }

    /// Rows of each column can be copied into a new one.
    pub open spec fn copyable(self) -> bool {
        forall|i: int|
            0 <= i < self.columns.len() ==> appendable(seq![#[trigger] self.columns@[i]])
    }

    /// It is easy to see that rows of each column can be copied into a new one.
    pub open spec fn plainly_copyable(self) -> bool {
        forall|i: int|
            0 <= i < self.columns.len() ==> plainly_appendable(seq![#[trigger] self.columns@[i]])
    }

    /// Checks whether it is easy to see that rows of each column can be copied.
    pub fn is_plainly_copyable(&self) -> (copyable: bool)
        ensures
            copyable == self.plainly_copyable(),
    {
        let mut i: usize = 0;
        while i < self.columns.len()
            invariant
                i <= self.columns.len(),
                forall|k: int|
                    0 <= k < i ==> plainly_appendable(seq![#[trigger] self.columns@[k]]),
            decreases self.columns.len() - i,
        {
            let one: Vec<&ArrayData> = vec![&self.columns[i]];
            let ghost columns = seq![self.columns@[i as int]];
            assert(one@.map_values(|column: &ArrayData| *column) =~= columns);
            if !can_append(&one) {
                return false;
            }
            i = i + 1;
        }
        true
    }

    /// Makes a batch of columns that fit a schema and that Arrow can make arrays of.
    pub fn new(schema: Arc<Schema>, columns: Vec<ArrayData>, row_count: usize) -> (result: Result<
        Batch,
        ExecError,
    >)
        requires
            all_arrays(columns@),
        ensures
            match result {
                Ok(batch) => {
                    &&& columns_fit(*schema, columns@, row_count as nat)
                    &&& batch.wf()
                    &&& batch.schema == schema
                    &&& batch.row_count == row_count
                    &&& same_columns(batch.columns@, columns@)
                },
                Err(ExecError::Arrow { context: None, .. }) => !columns_fit(
                    *schema,
                    columns@,
                    row_count as nat,
                ),
                Err(_) => false,
            },
    {
        let ghost given = columns@;
        match try_new_with_row_count(schema, columns, row_count) {
            Ok(batch) => {
                proof {
                    lemma_same_columns_fit(batch, given);
                }
                Ok(batch)
            },
            Err(error) => Err(ExecError::Arrow { error, context: None }),
        }
    }

    /// Keeps the rows for which the mask says true.
    pub fn select(&self, mask: Vec<bool>) -> (result: Result<Batch, ExecError>)
        requires
            self.wf(),
            self.copyable(),
            mask.len() == self.row_count,
        ensures
            result is Ok,
            result matches Ok(selection) ==> selection.wf() && selects(selection, *self, mask@),
    {
        let ghost kept_rows = mask@;
        match filter_record_batch(self, mask) {
            Err(error) => Err(ExecError::Arrow { error, context: None }),
            Ok(selection) => {
                proof {
                    lemma_selection_fits(selection, *self, kept_rows);
                }
                Ok(selection)
            },
        }
    }
}

/// A name's first place does not move when more names follow.
pub proof fn lemma_first_named_in_prefix(names: Seq<Seq<char>>, name: Seq<char>, n: int)
    requires
        0 <= n <= names.len(),
        first_named(names.take(n), name) is Some,
    ensures
        first_named(names, name) == first_named(names.take(n), name),
    decreases names.len() - n,
{
    if n < names.len() {
        assert(names.take(n + 1).drop_last() =~= names.take(n));
        lemma_first_named_in_prefix(names, name, n + 1);
    } else {
        assert(names.take(n) =~= names);
    }
}

/// A batch of columns that fit is a batch.
pub proof fn lemma_same_columns_fit(batch: Batch, columns: Seq<ArrayData>)
    requires
        same_columns(batch.columns@, columns),
        batch.accepts(columns),
        all_arrays(batch.columns@),
    ensures
        batch.wf(),
{
    assert forall|i: int| 0 <= i < batch.columns.len() implies column_fits(
        batch.field(i),
        #[trigger] batch.columns@[i],
        batch.row_count as nat,
    ) by {
        assert(same_column(batch.columns@[i], columns[i]));
        assert(column_fits(batch.field(i), columns[i], batch.row_count as nat));
    }
}

/// What a mask keeps of a batch is a batch again.
pub proof fn lemma_selection_fits(selection: Batch, batch: Batch, mask: Seq<bool>)
    requires
        batch.wf(),
        mask.len() == batch.row_count,
        selects(selection, batch, mask),
        all_arrays(selection.columns@),
    ensures
        selection.wf(),
{
    assert forall|i: int| 0 <= i < selection.columns.len() implies column_fits(
        selection.field(i),
        #[trigger] selection.columns@[i],
        selection.row_count as nat,
    ) by {
        let cells = column_cells(batch.columns@[i]);
        assert(column_fits(batch.field(i), batch.columns@[i], batch.row_count as nat));
        lemma_kept_len(cells, mask);
        if kept(cells, mask).contains(Cell::Null) {
            lemma_kept_source(cells, mask, Cell::Null);
        }
    }
}

} // verus!
