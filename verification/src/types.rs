//! The types of columns, as far as the library tells them apart, and the functions of
//! Arrow that tell of a type.

use datafusion::arrow::datatypes::{DataType, TimeUnit};
use vstd::prelude::*;

verus! {

/// A column's type, as Arrow has it.
#[verifier::external_type_specification]
#[verifier::external_body]
pub struct ExDataType(DataType);

/// How finely a type tells times apart.
#[derive(Clone, Copy, Debug, PartialEq, Eq, Structural)]
pub enum Unit {
    Second,
    Millisecond,
    Microsecond,
    Nanosecond,
}

/// How a type stores lists.
#[derive(Clone, Copy, Debug, PartialEq, Eq, Structural)]
pub enum ListKind {
    /// By offsets of 32 bits.
    Short,
    /// By offsets of 64 bits.
    Long,
    /// All of one length.
    Fixed,
    /// By an offset and a length each.
    View,
}

/// The type of a column. The numbers stand for what the library does not look into
/// (such as a precision, a time zone or the names of nested fields): equal types have
/// equal numbers, and different types differ in a number if in nothing else.
pub enum ColumnType {
    Boolean,
    Integer { signed: bool, bits: int },
    /// A floating-point or decimal number.
    Number(int),
    Time32(Unit),
    Time64(Unit),
    /// A date, timestamp, duration or interval.
    Temporal(int),
    Utf8,
    LargeUtf8,
    Utf8View,
    Binary,
    LargeBinary,
    BinaryView,
    FixedSizeBinary(int),
    /// Keys into a list of values.
    Dictionary(Box<ColumnType>, Box<ColumnType>),
    /// Runs of equal values, by where each run ends.
    RunEndEncoded(int, Box<ColumnType>, Box<ColumnType>),
    List(ListKind, int, Box<ColumnType>),
    Pairs(int, Box<ColumnType>),
    Record(int, Seq<ColumnType>),
    Union(int, Seq<ColumnType>),
    Other(int),
}

/// The type of whole numbers from zero to 64 bits.
pub open spec fn uint64() -> ColumnType {
    ColumnType::Integer { signed: false, bits: 64 }
}

/// Whether a type is one of numbers or times, all values of which have one width.
pub open spec fn primitive_type(column_type: ColumnType) -> bool {
    match column_type {
        ColumnType::Integer { .. } => true,
        ColumnType::Number(_) => true,
        ColumnType::Time32(_) => true,
        ColumnType::Time64(_) => true,
        ColumnType::Temporal(_) => true,
        _ => false,
    }
}

/// A type that run ends may have.
pub open spec fn run_ends_type(column_type: ColumnType) -> bool {
    column_type matches ColumnType::Integer { signed: true, bits } && bits != 8
}

/// Whether Arrow has an array for columns of a type. There is none for times that
/// the width has no room for, for keys or run ends that are no whole numbers, for
/// maps of anything but pairs, and for unions of nothing.
pub open spec fn has_array(column_type: ColumnType) -> bool
    decreases column_type,
{
    match column_type {
        ColumnType::Time32(unit) => unit is Second || unit is Millisecond,
        ColumnType::Time64(unit) => unit is Microsecond || unit is Nanosecond,
        ColumnType::Dictionary(key, value) => *key is Integer && has_array(*value),
        ColumnType::RunEndEncoded(_, end, value) => run_ends_type(*end) && has_array(*value),
        ColumnType::List(_, _, item) => has_array(*item),
        ColumnType::Pairs(_, entry) => has_array(*entry) && (*entry matches ColumnType::Record(
            _,
            fields,
        ) && fields.len() == 2),
        ColumnType::Record(_, fields) => forall|i: int|
            0 <= i < fields.len() ==> has_array(#[trigger] fields[i]),
        ColumnType::Union(_, fields) => fields.len() > 0 && forall|i: int|
            0 <= i < fields.len() ==> has_array(#[trigger] fields[i]),
        _ => true,
    }
}

/// Whether a type stores runs of equal values, itself or in a part of it.
pub open spec fn holds_runs(column_type: ColumnType) -> bool
    decreases column_type,
{
    match column_type {
        ColumnType::Dictionary(_, value) => holds_runs(*value),
        ColumnType::RunEndEncoded(_, _, _) => true,
        ColumnType::List(_, _, item) => holds_runs(*item),
        ColumnType::Pairs(_, entry) => holds_runs(*entry),
        ColumnType::Record(_, fields) => exists|i: int|
            0 <= i < fields.len() && holds_runs(#[trigger] fields[i]),
        ColumnType::Union(_, fields) => exists|i: int|
            0 <= i < fields.len() && holds_runs(#[trigger] fields[i]),
        _ => false,
    }
}

/// Whether a type is one of numbers, times, truth values, text or bytes, stored as they
/// are.
pub open spec fn plain_type(column_type: ColumnType) -> bool {
    match column_type {
        ColumnType::Boolean => true,
        ColumnType::Utf8 | ColumnType::LargeUtf8 | ColumnType::Utf8View => true,
        ColumnType::Binary | ColumnType::LargeBinary | ColumnType::BinaryView => true,
        ColumnType::FixedSizeBinary(_) => true,
        _ => primitive_type(column_type),
    }
}

/// Whether two columns of a type can be compared row by row. All can but runs that stand
/// inside something else, or whose values are not plain.
pub open spec fn comparable(column_type: ColumnType) -> bool {
    match column_type {
        ColumnType::RunEndEncoded(_, _, value) => plain_type(*value),
        _ => !holds_runs(column_type),
    }
}

/// Whether a type is one of text, however it is stored.
pub open spec fn is_text(column_type: ColumnType) -> bool
    decreases column_type,
{
    match column_type {
        ColumnType::Utf8 => true,
        ColumnType::LargeUtf8 => true,
        ColumnType::Utf8View => true,
        ColumnType::Dictionary(_, value) => is_text(*value),
        ColumnType::RunEndEncoded(_, _, value) => is_text(*value),
        _ => false,
    }
}

/// The type that an Arrow type is.
pub uninterp spec fn type_of(data_type: DataType) -> ColumnType;

/// The types that Arrow types are.
pub open spec fn types_of(data_types: Seq<DataType>) -> Seq<ColumnType> {
    data_types.map_values(|data_type: DataType| type_of(data_type))
}

/// [`DataType::is_primitive`] says whether a type is one of numbers or times.
pub assume_specification[ DataType::is_primitive ](data_type: &DataType) -> (primitive: bool)
    ensures
        primitive == primitive_type(type_of(*data_type)),
;

/// `==` on [`DataType`] compares types.
#[verifier::external_body]
pub(crate) fn same_type(a: &DataType, b: &DataType) -> (same: bool)
    ensures
        same == (type_of(*a) == type_of(*b)),
{
    a == b
}

/// The types without parts that the library tells apart.
#[derive(Clone, Copy, Debug, PartialEq, Eq, Structural)]
pub enum FlatType {
    Boolean,
    Utf8,
    LargeUtf8,
    Utf8View,
    Binary,
    LargeBinary,
    BinaryView,
    FixedSizeBinary,
    Other,
}

/// The variants of [`DataType`] for truth values, text and bytes stand for those
/// types, and no other variant does.
#[verifier::external_body]
pub(crate) fn flat_type_of(data_type: &DataType) -> (flat: FlatType)
    ensures
        flat == (match type_of(*data_type) {
            ColumnType::Boolean => FlatType::Boolean,
            ColumnType::Utf8 => FlatType::Utf8,
            ColumnType::LargeUtf8 => FlatType::LargeUtf8,
            ColumnType::Utf8View => FlatType::Utf8View,
            ColumnType::Binary => FlatType::Binary,
            ColumnType::LargeBinary => FlatType::LargeBinary,
            ColumnType::BinaryView => FlatType::BinaryView,
            ColumnType::FixedSizeBinary(_) => FlatType::FixedSizeBinary,
            _ => FlatType::Other,
        }),
{
    match data_type {
        DataType::Boolean => FlatType::Boolean,
        DataType::Utf8 => FlatType::Utf8,
        DataType::LargeUtf8 => FlatType::LargeUtf8,
        DataType::Utf8View => FlatType::Utf8View,
        DataType::Binary => FlatType::Binary,
        DataType::LargeBinary => FlatType::LargeBinary,
        DataType::BinaryView => FlatType::BinaryView,
        DataType::FixedSizeBinary(_) => FlatType::FixedSizeBinary,
        _ => FlatType::Other,
    }
}

/// The variants `Time32` and `Time64` of [`DataType`] stand for times of day, each
/// with its unit. The first part of the result tells the two apart.
#[verifier::external_body]
fn time_of(data_type: &DataType) -> (time: Option<(bool, Unit)>)
    ensures
        time == (match type_of(*data_type) {
            ColumnType::Time32(unit) => Some((true, unit)),
            ColumnType::Time64(unit) => Some((false, unit)),
            _ => None,
        }),
{
    let (short, unit) = match data_type {
        DataType::Time32(unit) => (true, unit),
        DataType::Time64(unit) => (false, unit),
        _ => return None,
    };
    let unit = match unit {
        TimeUnit::Second => Unit::Second,
        TimeUnit::Millisecond => Unit::Millisecond,
        TimeUnit::Microsecond => Unit::Microsecond,
        TimeUnit::Nanosecond => Unit::Nanosecond,
    };
    Some((short, unit))
}

/// The parts that a type is made of.
pub enum TypeParts {
    /// The types of the keys and of the values.
    Dictionary(DataType, DataType),
    /// The types of the run ends and of the values.
    RunEndEncoded(DataType, DataType),
    /// The type of the entries.
    Pairs(DataType),
    /// The type of each field.
    Record(Vec<DataType>),
    /// The type of each member.
    Union(Vec<DataType>),
    /// Nothing of the above.
    Other,
}

/// The parts are those of the type.
pub open spec fn is_made_of(column_type: ColumnType, parts: TypeParts) -> bool {
    match (column_type, parts) {
        (ColumnType::Dictionary(key, value), TypeParts::Dictionary(k, v)) => type_of(k) == *key
            && type_of(v) == *value,
        (ColumnType::RunEndEncoded(_, end, value), TypeParts::RunEndEncoded(e, v)) => type_of(e)
            == *end && type_of(v) == *value,
        (ColumnType::Pairs(_, entry), TypeParts::Pairs(e)) => type_of(e) == *entry,
        (ColumnType::Record(_, fields), TypeParts::Record(f)) => types_of(f@) == fields,
        (ColumnType::Union(_, fields), TypeParts::Union(f)) => types_of(f@) == fields,
        (ColumnType::Dictionary(..), _) => false,
        (ColumnType::RunEndEncoded(..), _) => false,
        (ColumnType::Pairs(..), _) => false,
        (ColumnType::Record(..), _) => false,
        (ColumnType::Union(..), _) => false,
        (_, parts) => parts is Other,
    }
}

/// The variants of [`DataType`] for dictionaries, runs, maps, structs and unions hold
/// the types of their parts.
#[verifier::external_body]
pub(crate) fn parts_of(data_type: &DataType) -> (parts: TypeParts)
    ensures
        is_made_of(type_of(*data_type), parts),
{
    match data_type {
        DataType::Dictionary(k, v) => TypeParts::Dictionary(*k.clone(), *v.clone()),
        DataType::RunEndEncoded(r, v) => {
            TypeParts::RunEndEncoded(r.data_type().clone(), v.data_type().clone())
        },
        DataType::Map(entry, _) => TypeParts::Pairs(entry.data_type().clone()),
        DataType::Struct(f) => {
            TypeParts::Record(f.iter().map(|f| f.data_type().clone()).collect())
        },
        DataType::Union(f, _) => {
            TypeParts::Union(f.iter().map(|f| f.1.data_type().clone()).collect())
        },
        _ => TypeParts::Other,
    }
}

/// The variants of [`DataType`] for lists hold the type of their items.
#[verifier::external_body]
pub(crate) fn item_of(data_type: &DataType) -> (item: Option<(ListKind, DataType)>)
    ensures
        match (type_of(*data_type), item) {
            (ColumnType::List(kind, _, expected), Some(item)) => item.0 == kind && type_of(item.1)
                == *expected,
            (ColumnType::List(..), None) => false,
            (_, item) => item is None,
        },
{
    let (kind, field) = match data_type {
        DataType::List(f) => (ListKind::Short, f),
        DataType::LargeList(f) => (ListKind::Long, f),
        DataType::FixedSizeList(f, _) => (ListKind::Fixed, f),
        DataType::ListView(f) | DataType::LargeListView(f) => (ListKind::View, f),
        _ => return None,
    };
    Some((kind, field.data_type().clone()))
}

/// The variants of [`DataType`] for whole numbers stand for those types, each with its
/// signedness and its bits.
#[verifier::external_body]
pub(crate) fn integer_of(data_type: &DataType) -> (integer: Option<(bool, u8)>)
    ensures
        match (type_of(*data_type), integer) {
            (ColumnType::Integer { signed, bits }, Some(integer)) => integer.0 == signed
                && integer.1 == bits,
            (ColumnType::Integer { .. }, None) => false,
            (_, integer) => integer is None,
        },
{
    match data_type {
        DataType::Int8 => Some((true, 8)),
        DataType::Int16 => Some((true, 16)),
        DataType::Int32 => Some((true, 32)),
        DataType::Int64 => Some((true, 64)),
        DataType::UInt8 => Some((false, 8)),
        DataType::UInt16 => Some((false, 16)),
        DataType::UInt32 => Some((false, 32)),
        DataType::UInt64 => Some((false, 64)),
        _ => None,
    }
}

/// Whether Arrow has an array for every one of the types.
fn types_have_arrays(data_types: &Vec<DataType>) -> (all: bool)
    ensures
        all == (forall|i: int|
            0 <= i < data_types.len() ==> has_array(#[trigger] types_of(data_types@)[i])),
    decreases types_of(data_types@), 1int,
{
    let mut i: usize = 0;
    while i < data_types.len()
        invariant
            i <= data_types.len(),
            forall|k: int| 0 <= k < i ==> has_array(#[trigger] types_of(data_types@)[k]),
        decreases data_types.len() - i,
    {
        assert(types_of(data_types@)[i as int] == type_of(data_types@[i as int]));
        assert(decreases_to!(types_of(data_types@) => types_of(data_types@)[i as int]));
        if !type_has_array(&data_types[i]) {
            return false;
        }
        i = i + 1;
    }
    true
}

/// Checks whether Arrow has an array for columns of a type.
pub fn type_has_array(data_type: &DataType) -> (has: bool)
    ensures
        has == has_array(type_of(*data_type)),
    decreases type_of(*data_type), 0int,
{
    if let Some(time) = time_of(data_type) {
        return if time.0 {
            time.1 == Unit::Second || time.1 == Unit::Millisecond
        } else {
            time.1 == Unit::Microsecond || time.1 == Unit::Nanosecond
        };
    }
    if let Some(item) = item_of(data_type) {
        return type_has_array(&item.1);
    }
    match parts_of(data_type) {
        TypeParts::Dictionary(key, value) => integer_of(&key).is_some() && type_has_array(&value),
        TypeParts::RunEndEncoded(end, value) => match integer_of(&end) {
            None => false,
            Some(integer) => integer.0 && integer.1 != 8 && type_has_array(&value),
        },
        TypeParts::Pairs(entry) => {
            if !type_has_array(&entry) {
                return false;
            }
            match parts_of(&entry) {
                TypeParts::Record(fields) => {
                    assert(types_of(fields@).len() == fields.len());
                    fields.len() == 2
                },
                _ => false,
            }
        },
        TypeParts::Record(fields) => types_have_arrays(&fields),
        TypeParts::Union(fields) => {
            assert(types_of(fields@).len() == fields.len());
            fields.len() > 0 && types_have_arrays(&fields)
        },
        TypeParts::Other => true,
    }
}

/// Whether one of the types stores runs of equal values.
fn types_hold_runs(data_types: &Vec<DataType>) -> (any: bool)
    ensures
        any == (exists|i: int|
            0 <= i < data_types.len() && holds_runs(#[trigger] types_of(data_types@)[i])),
    decreases types_of(data_types@), 1int,
{
    let mut i: usize = 0;
    while i < data_types.len()
        invariant
            i <= data_types.len(),
            forall|k: int| 0 <= k < i ==> !holds_runs(#[trigger] types_of(data_types@)[k]),
        decreases data_types.len() - i,
    {
        assert(types_of(data_types@)[i as int] == type_of(data_types@[i as int]));
        assert(decreases_to!(types_of(data_types@) => types_of(data_types@)[i as int]));
        if type_holds_runs(&data_types[i]) {
            return true;
        }
        i = i + 1;
    }
    false
}

/// Checks whether a type stores runs of equal values, itself or in a part of it.
pub fn type_holds_runs(data_type: &DataType) -> (runs: bool)
    ensures
        runs == holds_runs(type_of(*data_type)),
    decreases type_of(*data_type), 0int,
{
    if let Some(item) = item_of(data_type) {
        return type_holds_runs(&item.1);
    }
    match parts_of(data_type) {
        TypeParts::Dictionary(_, value) => type_holds_runs(&value),
        TypeParts::RunEndEncoded(_, _) => true,
        TypeParts::Pairs(entry) => type_holds_runs(&entry),
        TypeParts::Record(fields) => {
            assert(types_of(fields@).len() == fields.len());
            types_hold_runs(&fields)
        },
        TypeParts::Union(fields) => {
            assert(types_of(fields@).len() == fields.len());
            types_hold_runs(&fields)
        },
        TypeParts::Other => false,
    }
}

/// Checks whether a type is one of numbers, times, truth values, text or bytes, stored as
/// they are.
pub fn is_plain_type(data_type: &DataType) -> (plain: bool)
    ensures
        plain == plain_type(type_of(*data_type)),
{
    match flat_type_of(data_type) {
        FlatType::Other => data_type.is_primitive(),
        _ => true,
    }
}

/// Checks whether two columns of a type can be compared row by row.
pub fn type_is_comparable(data_type: &DataType) -> (can: bool)
    ensures
        can == comparable(type_of(*data_type)),
{
    match parts_of(data_type) {
        TypeParts::RunEndEncoded(_, value) => is_plain_type(&value),
        _ => !type_holds_runs(data_type),
    }
}

/// Checks whether a type is one of text, however it is stored.
pub fn is_text_type(data_type: &DataType) -> (text: bool)
    ensures
        text == is_text(type_of(*data_type)),
    decreases type_of(*data_type),
{
    match flat_type_of(data_type) {
        FlatType::Utf8 | FlatType::LargeUtf8 | FlatType::Utf8View => {
            return true;
        },
        _ => {},
    }
    match parts_of(data_type) {
        TypeParts::Dictionary(_, value) => is_text_type(&value),
        TypeParts::RunEndEncoded(_, value) => is_text_type(&value),
        _ => false,
    }
}

} // verus!
