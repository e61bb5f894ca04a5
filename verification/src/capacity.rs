//! Whether the rows of columns can be put together into one column.
//!
//! Arrow panics or fails where a new column outgrows its type. The library tells from
//! the sizes of the columns where that cannot happen.

use datafusion::arrow::array::ArrayData;
use datafusion::arrow::datatypes::DataType;
use vstd::prelude::*;

use crate::columns::{
    Cell, column_buffers, column_bytes, column_cells, column_parts, column_type, count_buffers,
    has_offsets, memory_size, rows_fit, types_agree,
};
use crate::types::{
    ColumnType, FlatType, ListKind, TypeParts, flat_type_of, has_array, integer_of, item_of,
    parts_of, primitive_type, same_type, type_has_array, type_of, types_of,
};

verus! {

/// The bytes that the columns need, all together. A column without rows needs none.
pub open spec fn total_bytes(columns: Seq<ArrayData>) -> nat
    decreases columns.len(),
{
    if columns.len() == 0 {
        0
    } else {
        total_bytes(columns.drop_last()) + if column_cells(columns.last()).len() == 0 {
            0
        } else {
            column_bytes(columns.last())
        }
    }
}

/// The bytes that columns of one type may need for their rows to be put together,
/// where only the bytes matter.
pub open spec fn byte_limit(column_type: ColumnType) -> nat {
    match column_type {
        ColumnType::Utf8 | ColumnType::Binary => i32::MAX as nat,
        _ => i64::MAX as nat,
    }
}

/// How many rows the columns have, all together.
pub open spec fn total_length(columns: Seq<ArrayData>) -> nat
    decreases columns.len(),
{
    if columns.len() == 0 {
        0
    } else {
        total_length(columns.drop_last()) + column_cells(columns.last()).len()
    }
}

/// How many buffers the columns have, all together.
pub open spec fn total_buffers(columns: Seq<ArrayData>) -> nat
    decreases columns.len(),
{
    if columns.len() == 0 {
        0
    } else {
        total_buffers(columns.drop_last()) + column_buffers(columns.last())
    }
}

/// One part of every column.
pub open spec fn part_of_each(columns: Seq<ArrayData>, i: int) -> Seq<ArrayData> {
    columns.map_values(|column: ArrayData| column_parts(column)[i])
}

/// Every column is made of so many parts.
pub open spec fn have_parts(columns: Seq<ArrayData>, count: nat) -> bool {
    forall|k: int|
        0 <= k < columns.len() ==> column_parts(#[trigger] columns[k]).len() == count
}

/// No column has a null.
pub open spec fn without_nulls(columns: Seq<ArrayData>) -> bool {
    forall|k: int|
        0 <= k < columns.len() ==> !column_cells(#[trigger] columns[k]).contains(Cell::Null)
}

/// The largest key of a type of whole numbers.
pub open spec fn largest_key(signed: bool, bits: int) -> nat {
    if bits == 8 {
        if signed { i8::MAX as nat } else { u8::MAX as nat }
    } else if bits == 16 {
        if signed { i16::MAX as nat } else { u16::MAX as nat }
    } else if bits == 32 {
        if signed { i32::MAX as nat } else { u32::MAX as nat }
    } else {
        i64::MAX as nat
    }
}

/// The items that lists may have, all together, for their rows to be put together.
pub open spec fn item_limit(kind: ListKind) -> nat {
    match kind {
        ListKind::Short => i32::MAX as nat,
        _ => i64::MAX as nat,
    }
}

/// Columns of one type whose rows can be put together, as is easy to see: they are
/// numbers, times or truth values; or texts or bytes that are short enough; or views
/// into few enough buffers; or lists, maps and structs of such columns, with few enough
/// items. With `keyed` they may also be keys, none of them null, into few enough values.
/// Inside lists and structs a key of a null may make Arrow fail.
pub open spec fn plain_rows(columns: Seq<ArrayData>, expected: ColumnType, keyed: bool) -> bool
    decreases expected,
{
    &&& forall|k: int| 0 <= k < columns.len() ==> column_type(#[trigger] columns[k]) == expected
    &&& match expected {
        ColumnType::Boolean | ColumnType::FixedSizeBinary(_) => true,
        ColumnType::Utf8 | ColumnType::LargeUtf8 => total_bytes(columns) <= byte_limit(expected),
        ColumnType::Binary | ColumnType::LargeBinary => total_bytes(columns) <= byte_limit(
            expected,
        ),
        ColumnType::Utf8View | ColumnType::BinaryView => total_buffers(columns) <= u32::MAX,
        ColumnType::Dictionary(key, value) => {
            &&& keyed && *key is Integer
            &&& without_nulls(columns)
            &&& have_parts(columns, 1)
            &&& total_length(part_of_each(columns, 0)) <= largest_key(key->signed, key->bits)
            &&& plain_rows(part_of_each(columns, 0), *value, true)
        },
        ColumnType::List(kind, _, item) => {
            &&& !(kind is View)
            &&& have_parts(columns, 1)
            &&& total_length(part_of_each(columns, 0)) <= item_limit(kind)
            &&& plain_rows(part_of_each(columns, 0), *item, false)
        },
        ColumnType::Pairs(_, entry) => {
            &&& have_parts(columns, 1)
            &&& total_length(part_of_each(columns, 0)) <= item_limit(ListKind::Short)
            &&& plain_rows(part_of_each(columns, 0), *entry, false)
        },
        ColumnType::Record(_, fields) => {
            &&& have_parts(columns, fields.len())
            &&& forall|i: int|
                0 <= i < fields.len() ==> plain_rows(
                    part_of_each(columns, i),
                    #[trigger] fields[i],
                    false,
                )
        },
        _ => primitive_type(expected) && has_array(expected),
    }
}

/// Whether it is easy to see that rows of these columns can be put together. Columns of
/// different types are refused by Arrow, and no row of them is copied.
pub open spec fn plainly_appendable(columns: Seq<ArrayData>) -> bool {
    &&& columns.len() > 0
    &&& types_agree(columns) ==> plain_rows(columns, column_type(columns[0]), true)
}

/// Whether rows of these columns can be put together.
pub open spec fn appendable(columns: Seq<ArrayData>) -> bool {
    plainly_appendable(columns) || rows_fit(columns)
}

/// The first few columns need no more bytes than all of them.
proof fn lemma_bytes_of_prefix(columns: Seq<ArrayData>, n: int)
    requires
        0 <= n <= columns.len(),
    ensures
        total_bytes(columns.take(n)) <= total_bytes(columns),
    decreases columns.len() - n,
{
    if n < columns.len() {
        lemma_bytes_of_prefix(columns, n + 1);
        assert(columns.take(n + 1).drop_last() =~= columns.take(n));
    } else {
        assert(columns.take(n) =~= columns);
    }
}

/// Checks whether the columns, of one type of text or bytes, need at most `limit`
/// bytes.
fn bytes_within(columns: &Vec<&ArrayData>, limit: u64) -> (within: bool)
    requires
        forall|k: int|
            0 <= k < columns.len() ==> has_offsets(column_type(*#[trigger] columns[k])),
    ensures
        within == (total_bytes(seen(columns@)) <= limit),
{
    let ghost all = seen(columns@);
    let mut used: u64 = 0;
    let mut i: usize = 0;
    while i < columns.len()
        invariant
            i <= columns.len(),
            all == seen(columns@),
            used == total_bytes(all.take(i as int)),
            used <= limit,
            forall|k: int|
                0 <= k < columns.len() ==> has_offsets(column_type(*#[trigger] columns[k])),
        decreases columns.len() - i,
    {
        proof {
            assert(all.take(i + 1).drop_last() =~= all.take(i as int));
            assert(all.take(i + 1).last() == *columns[i as int]);
            lemma_bytes_of_prefix(all, i + 1);
        }
        if columns[i].len() > 0 {
            match memory_size(columns[i]) {
                Err(_) => {
                    return false;
                },
                Ok(size) => {
                    if size as u64 > limit - used {
                        return false;
                    }
                    used = used + size as u64;
                },
            }
        }
        i = i + 1;
    }
    assert(all.take(columns.len() as int) =~= all);
    true
}

/// The columns behind references.
pub open spec fn seen(columns: Seq<&ArrayData>) -> Seq<ArrayData> {
    columns.map_values(|column: &ArrayData| *column)
}

/// The first few columns have no more rows than all of them.
proof fn lemma_length_of_prefix(columns: Seq<ArrayData>, n: int)
    requires
        0 <= n <= columns.len(),
    ensures
        total_length(columns.take(n)) <= total_length(columns),
    decreases columns.len() - n,
{
    if n < columns.len() {
        lemma_length_of_prefix(columns, n + 1);
        assert(columns.take(n + 1).drop_last() =~= columns.take(n));
    } else {
        assert(columns.take(n) =~= columns);
    }
}

/// Checks whether the columns have at most `limit` rows.
fn length_within(columns: &Vec<&ArrayData>, limit: u64) -> (within: bool)
    ensures
        within == (total_length(seen(columns@)) <= limit),
{
    let ghost all = seen(columns@);
    let mut used: u64 = 0;
    let mut i: usize = 0;
    while i < columns.len()
        invariant
            i <= columns.len(),
            all == seen(columns@),
            used == total_length(all.take(i as int)),
            used <= limit,
        decreases columns.len() - i,
    {
        proof {
            assert(all.take(i + 1).drop_last() =~= all.take(i as int));
            assert(all.take(i + 1).last() == *columns[i as int]);
            lemma_length_of_prefix(all, i + 1);
        }
        let length: usize = columns[i].len();
        if length as u64 > limit - used {
            return false;
        }
        used = used + length as u64;
        i = i + 1;
    }
    assert(all.take(columns.len() as int) =~= all);
    true
}

/// The first few columns have no more buffers than all of them.
proof fn lemma_buffers_of_prefix(columns: Seq<ArrayData>, n: int)
    requires
        0 <= n <= columns.len(),
    ensures
        total_buffers(columns.take(n)) <= total_buffers(columns),
    decreases columns.len() - n,
{
    if n < columns.len() {
        lemma_buffers_of_prefix(columns, n + 1);
        assert(columns.take(n + 1).drop_last() =~= columns.take(n));
    } else {
        assert(columns.take(n) =~= columns);
    }
}

/// Checks whether the columns have at most `limit` buffers.
fn buffers_within(columns: &Vec<&ArrayData>, limit: u64) -> (within: bool)
    ensures
        within == (total_buffers(seen(columns@)) <= limit),
{
    let ghost all = seen(columns@);
    let mut used: u64 = 0;
    let mut i: usize = 0;
    while i < columns.len()
        invariant
            i <= columns.len(),
            all == seen(columns@),
            used == total_buffers(all.take(i as int)),
            used <= limit,
        decreases columns.len() - i,
    {
        proof {
            assert(all.take(i + 1).drop_last() =~= all.take(i as int));
            assert(all.take(i + 1).last() == *columns[i as int]);
            lemma_buffers_of_prefix(all, i + 1);
        }
        let count: usize = count_buffers(columns[i]);
        if count as u64 > limit - used {
            return false;
        }
        used = used + count as u64;
        i = i + 1;
    }
    assert(all.take(columns.len() as int) =~= all);
    true
}

/// Checks whether every column is made of so many parts.
fn parts_counted(columns: &Vec<&ArrayData>, count: usize) -> (all: bool)
    ensures
        all == have_parts(seen(columns@), count as nat),
{
    let mut k: usize = 0;
    while k < columns.len()
        invariant
            k <= columns.len(),
            forall|j: int|
                0 <= j < k ==> column_parts(#[trigger] seen(columns@)[j]).len() == count,
        decreases columns.len() - k,
    {
        assert(seen(columns@)[k as int] == *columns[k as int]);
        if columns[k].child_data().len() != count {
            return false;
        }
        k = k + 1;
    }
    true
}

/// Checks whether no column has a null.
fn nulls_absent(columns: &Vec<&ArrayData>) -> (absent: bool)
    ensures
        absent == without_nulls(seen(columns@)),
{
    let mut k: usize = 0;
    while k < columns.len()
        invariant
            k <= columns.len(),
            forall|j: int|
                0 <= j < k ==> !column_cells(#[trigger] seen(columns@)[j]).contains(Cell::Null),
        decreases columns.len() - k,
    {
        assert(seen(columns@)[k as int] == *columns[k as int]);
        if columns[k].null_count() != 0 {
            return false;
        }
        k = k + 1;
    }
    true
}

/// One part of every column.
fn parts_at<'a>(columns: &Vec<&'a ArrayData>, i: usize) -> (parts: Vec<&'a ArrayData>)
    requires
        forall|k: int|
            0 <= k < columns.len() ==> i < column_parts(#[trigger] seen(columns@)[k]).len(),
    ensures
        seen(parts@) == part_of_each(seen(columns@), i as int),
{
    let mut parts: Vec<&'a ArrayData> = Vec::new();
    let mut k: usize = 0;
    while k < columns.len()
        invariant
            k <= columns.len(),
            parts.len() == k,
            forall|j: int|
                0 <= j < columns.len() ==> i < column_parts(#[trigger] seen(columns@)[j]).len(),
            forall|j: int|
                0 <= j < k ==> *(#[trigger] parts[j]) == column_parts(*columns[j])[i as int],
        decreases columns.len() - k,
    {
        assert(seen(columns@)[k as int] == *columns[k as int]);
        let column: &'a ArrayData = columns[k];
        parts.push(&column.child_data()[i]);
        k = k + 1;
    }
    assert(seen(parts@) =~= part_of_each(seen(columns@), i as int));
    parts
}

/// Checks whether the columns have a type.
fn types_are(columns: &Vec<&ArrayData>, data_type: &DataType) -> (all: bool)
    ensures
        all == (forall|k: int|
            0 <= k < columns.len() ==> column_type(#[trigger] seen(columns@)[k]) == type_of(
                *data_type,
            )),
{
    let mut k: usize = 0;
    while k < columns.len()
        invariant
            k <= columns.len(),
            forall|j: int|
                0 <= j < k ==> column_type(#[trigger] seen(columns@)[j]) == type_of(*data_type),
        decreases columns.len() - k,
    {
        assert(seen(columns@)[k as int] == *columns[k as int]);
        if !same_type(columns[k].data_type(), data_type) {
            return false;
        }
        k = k + 1;
    }
    true
}

/// The largest key of a type of whole numbers.
fn key_limit(signed: bool, bits: u8) -> (limit: u64)
    ensures
        limit == largest_key(signed, bits as int),
{
    if bits == 8 {
        if signed { 0x7f } else { 0xff }
    } else if bits == 16 {
        if signed { 0x7fff } else { 0xffff }
    } else if bits == 32 {
        if signed { 0x7fff_ffff } else { 0xffff_ffff }
    } else {
        0x7fff_ffff_ffff_ffff
    }
}

/// Checks whether it is easy to see that rows of these columns, of one type, can be put
/// together.
fn rows_are_plain(columns: &Vec<&ArrayData>, data_type: &DataType, keyed: bool) -> (plain: bool)
    ensures
        plain == plain_rows(seen(columns@), type_of(*data_type), keyed),
    decreases type_of(*data_type), 0int,
{
    if !types_are(columns, data_type) {
        return false;
    }
    assert forall|k: int| 0 <= k < columns.len() implies column_type(*#[trigger] columns[k])
        == type_of(*data_type) by {
        assert(seen(columns@)[k] == *columns[k]);
    }
    match flat_type_of(data_type) {
        FlatType::Boolean | FlatType::FixedSizeBinary => {
            return true;
        },
        FlatType::Utf8 | FlatType::Binary => {
            return bytes_within(columns, 0x7fff_ffff);
        },
        FlatType::LargeUtf8 | FlatType::LargeBinary => {
            return bytes_within(columns, 0x7fff_ffff_ffff_ffff);
        },
        FlatType::Utf8View | FlatType::BinaryView => {
            return buffers_within(columns, 0xffff_ffff);
        },
        FlatType::Other => {},
    }
    if let Some((kind, item)) = item_of(data_type) {
        if kind == ListKind::View || !parts_counted(columns, 1) {
            return false;
        }
        let items = parts_at(columns, 0);
        let limit: u64 = if kind == ListKind::Short { 0x7fff_ffff } else { 0x7fff_ffff_ffff_ffff };
        return length_within(&items, limit) && rows_are_plain(&items, &item, false);
    }
    match parts_of(data_type) {
        TypeParts::Dictionary(key, value) => match integer_of(&key) {
            None => false,
            Some((signed, bits)) => {
                if !keyed || !nulls_absent(columns) || !parts_counted(columns, 1) {
                    return false;
                }
                let values = parts_at(columns, 0);
                length_within(&values, key_limit(signed, bits)) && rows_are_plain(
                    &values,
                    &value,
                    true,
                )
            },
        },
        TypeParts::Pairs(entry) => {
            if !parts_counted(columns, 1) {
                return false;
            }
            let entries = parts_at(columns, 0);
            length_within(&entries, 0x7fff_ffff) && rows_are_plain(&entries, &entry, false)
        },
        TypeParts::Record(fields) => {
            assert(types_of(fields@).len() == fields.len());
            parts_counted(columns, fields.len()) && fields_are_plain(columns, &fields)
        },
        TypeParts::RunEndEncoded(_, _) | TypeParts::Union(_) => false,
        TypeParts::Other => data_type.is_primitive() && type_has_array(data_type),
    }
}

/// Checks whether it is easy to see that rows of structs with these fields can be put
/// together.
fn fields_are_plain(columns: &Vec<&ArrayData>, data_types: &Vec<DataType>) -> (plain: bool)
    requires
        have_parts(seen(columns@), data_types.len() as nat),
    ensures
        plain == (forall|i: int|
            0 <= i < data_types.len() ==> plain_rows(
                part_of_each(seen(columns@), i),
                #[trigger] types_of(data_types@)[i],
                false,
            )),
    decreases types_of(data_types@), 1int,
{
    let mut i: usize = 0;
    while i < data_types.len()
        invariant
            i <= data_types.len(),
            have_parts(seen(columns@), data_types.len() as nat),
            forall|k: int|
                0 <= k < i ==> plain_rows(
                    part_of_each(seen(columns@), k),
                    #[trigger] types_of(data_types@)[k],
                    false,
                ),
        decreases data_types.len() - i,
    {
        assert(types_of(data_types@)[i as int] == type_of(data_types@[i as int]));
        assert(decreases_to!(types_of(data_types@) => types_of(data_types@)[i as int]));
        let parts = parts_at(columns, i);
        if !rows_are_plain(&parts, &data_types[i], false) {
            return false;
        }
        i = i + 1;
    }
    true
}

/// Checks whether it is easy to see that rows of these columns can be put together.
pub fn can_append(columns: &Vec<&ArrayData>) -> (can: bool)
    ensures
        can == plainly_appendable(columns@.map_values(|column: &ArrayData| *column)),
{
    let ghost all = columns@.map_values(|column: &ArrayData| *column);
    assert(all =~= seen(columns@));
    if columns.len() == 0 {
        return false;
    }
    assert(all[0] == *columns[0]);
    let first = columns[0].data_type();
    if !types_are(columns, first) {
        return true;
    }
    rows_are_plain(columns, first, true)
}

} // verus!
