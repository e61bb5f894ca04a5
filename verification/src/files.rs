//! Data files of a table as the rest of the library sees them, and the functions of
//! the `iceberg` crate that the library calls.
//!
//! A data file is opaque here. What it records has a name, [`data_file_info`], and
//! each function below says over such names what the function of `iceberg` does
//! that it calls. Those statements are believed, not proved.

use std::str::FromStr;
use std::sync::Arc;

use iceberg::spec::{
    DataContentType, DataFile, DataFileBuilder, DataFileFormat, FormatVersion, Literal,
    NestedField, PrimitiveLiteral, Schema, SchemaRef, Struct, StructType, TableMetadata,
    deserialize_data_file_from_json, serialize_data_file_to_json,
};
use iceberg::table::Table;
use vstd::prelude::*;
use vstd::utf8::is_ascii_chars;

use crate::error::ExecError;
use crate::text::{join, joined, same_text, texts};

verus! {

/// What a table's metadata records of one of its files.
#[verifier::external_type_specification]
#[verifier::external_body]
pub struct ExDataFile(DataFile);

/// The type of a table's partition values.
#[verifier::external_type_specification]
#[verifier::external_body]
pub struct ExStructType(StructType);

/// The schema of a table.
#[verifier::external_type_specification]
#[verifier::external_body]
pub struct ExTableSchema(Schema);

/// The version of the table format.
#[verifier::external_type_specification]
#[verifier::external_body]
pub struct ExFormatVersion(FormatVersion);

/// One value of a partition.
#[verifier::external_type_specification]
#[verifier::external_body]
pub struct ExLiteral(Literal);

/// The partition values of a file.
#[verifier::external_type_specification]
#[verifier::external_body]
pub struct ExStruct(Struct);

/// A table, with its metadata and the means to read and write its files.
#[verifier::external_type_specification]
#[verifier::external_body]
pub struct ExTable(Table);

/// All that a table is, but for its rows.
#[verifier::external_type_specification]
#[verifier::external_body]
pub struct ExTableMetadata(TableMetadata);

/// Why a function of `iceberg` failed.
#[verifier::external_type_specification]
#[verifier::external_body]
pub struct ExError(iceberg::Error);

/// The formats that a file of a table can have.
#[derive(Clone, Copy, Debug, PartialEq, Eq, Structural)]
pub enum FileFormat {
    Avro,
    Orc,
    Parquet,
    Puffin,
}

impl FileFormat {
    pub open spec fn chars(self) -> Seq<char> {
        match self {
            FileFormat::Avro => "avro"@,
            FileFormat::Orc => "orc"@,
            FileFormat::Parquet => "parquet"@,
            FileFormat::Puffin => "puffin"@,
        }
    }

    /// The format's name, in lower case.
    pub fn name(&self) -> (name: &'static str)
        ensures
            name@ == self.chars(),
    {
        match self {
            FileFormat::Avro => "avro",
            FileFormat::Orc => "orc",
            FileFormat::Parquet => "parquet",
            FileFormat::Puffin => "puffin",
        }
    }
}

/// One value of a partition. `Other` numbers the values that the library does not look
/// into, so that equal numbers stand for equal values.
pub enum PartitionValue {
    Null,
    Boolean(bool),
    /// A whole number of 32 bits, also one that counts days.
    Int(i32),
    /// A whole number of 64 bits, also one that counts microseconds or nanoseconds.
    Long(i64),
    Text(Seq<char>),
    Other(int),
}

impl PartitionValue {
    pub open spec fn kind(self) -> ValueKind {
        match self {
            PartitionValue::Null => ValueKind::Null,
            PartitionValue::Boolean(_) => ValueKind::Boolean,
            PartitionValue::Int(_) => ValueKind::Int,
            PartitionValue::Long(_) => ValueKind::Long,
            PartitionValue::Text(_) => ValueKind::Text,
            PartitionValue::Other(_) => ValueKind::Other,
        }
    }
}

/// What a field of a struct type says.
pub struct StructFieldInfo {
    pub name: Seq<char>,
    /// How the type is written, if it has no parts.
    pub type_text: Option<Seq<char>>,
    /// Whether there has to be a value.
    pub required: bool,
}

/// The kinds of partition values that the library tells apart.
#[derive(Clone, Copy, Debug, PartialEq, Eq, Structural)]
pub enum ValueKind {
    Null,
    Boolean,
    Int,
    Long,
    Text,
    Other,
}

/// What the rows of a file are for.
pub enum FileContent {
    Data,
    PositionDeletes,
    EqualityDeletes,
}

/// What a data file records, as far as the library speaks of it.
pub struct DataFileInfo {
    pub content: FileContent,
    pub file_path: Seq<char>,
    pub file_format: FileFormat,
    pub partition: Struct,
    pub partition_spec_id: i32,
    pub record_count: u64,
    pub file_size_in_bytes: u64,
    /// The smallest values that are recorded of columns.
    pub lower_bounds: Set<BoundInfo>,
    /// The largest values that are recorded of columns.
    pub upper_bounds: Set<BoundInfo>,
}

/// What the smallest or largest value of a column is recorded as.
pub struct BoundInfo {
    /// The column's number.
    pub id: i32,
    /// How the value's type is written.
    pub type_text: Seq<char>,
    /// Whether the value is one of its type.
    pub matched: bool,
}

/// What a data file records.
pub uninterp spec fn data_file_info(file: DataFile) -> DataFileInfo;

/// The values of a partition, in order.
pub uninterp spec fn partition_values(partition: Struct) -> Seq<PartitionValue>;

/// The fields of a struct type, in order.
pub uninterp spec fn struct_fields(struct_type: StructType) -> Seq<StructFieldInfo>;

/// The kinds of a partition's values.
pub open spec fn partition_kinds(partition: Struct) -> Seq<ValueKind> {
    partition_values(partition).map_values(|value: PartitionValue| value.kind())
}

/// How the type of a column of a schema is written, if there is a column of that
/// number and its type has no parts. Types that are written alike are the same.
pub uninterp spec fn written_type(schema: Schema, id: i32) -> Option<Seq<char>>;

/// The texts that a data file may be written as. There is more than one where the
/// file has statistics on several columns: these are written in no fixed order.
/// There is none where the file cannot be written.
pub uninterp spec fn data_file_texts(
    file: DataFile,
    partition_type: StructType,
    format_version: FormatVersion,
) -> Set<Seq<char>>;

/// The data file that a text stands for, if it stands for one.
pub uninterp spec fn data_file_of(
    text: Seq<char>,
    partition_spec_id: i32,
    partition_type: StructType,
    schema: Schema,
) -> Option<DataFile>;

/// The levels of the namespace that a table is in.
pub uninterp spec fn table_namespace(table: Table) -> Seq<Seq<char>>;

/// The name of a table in its namespace.
pub uninterp spec fn table_name(table: Table) -> Seq<char>;

/// The metadata of a table.
pub uninterp spec fn table_metadata(table: Table) -> TableMetadata;

/// The number of the partition spec that new files are written with.
pub uninterp spec fn default_spec_id(metadata: TableMetadata) -> i32;

/// The type of the partition values under that spec.
pub uninterp spec fn default_partition_type(metadata: TableMetadata) -> StructType;

/// The schema of the rows that the table has now.
pub uninterp spec fn current_schema(metadata: TableMetadata) -> Arc<Schema>;

/// The version of the table format.
pub uninterp spec fn format_version(metadata: TableMetadata) -> FormatVersion;

/// What the table's properties name as the format of new files, if the properties
/// can be read.
pub uninterp spec fn write_format(metadata: TableMetadata) -> Option<Seq<char>>;

/// A character in lower case, if it is an ASCII letter.
pub open spec fn ascii_lowercase(c: char) -> char {
    if 'A' <= c && c <= 'Z' {
        (c as u32 + 32) as char
    } else {
        c
    }
}

/// The format with a given name.
pub open spec fn format_with_name(name: Seq<char>) -> Option<FileFormat> {
    if name == FileFormat::Avro.chars() {
        Some(FileFormat::Avro)
    } else if name == FileFormat::Orc.chars() {
        Some(FileFormat::Orc)
    } else if name == FileFormat::Parquet.chars() {
        Some(FileFormat::Parquet)
    } else if name == FileFormat::Puffin.chars() {
        Some(FileFormat::Puffin)
    } else {
        None
    }
}

/// The format that a string names, upper and lower case being the same. No string with
/// a character beyond ASCII names one.
pub open spec fn format_named(text: Seq<char>) -> Option<FileFormat> {
    if is_ascii_chars(text) {
        format_with_name(text.map_values(|c: char| ascii_lowercase(c)))
    } else {
        None
    }
}

/// Two records of one file, as far as reading and writing it goes.
pub open spec fn same_file(a: DataFileInfo, b: DataFileInfo) -> bool {
    &&& a.content == b.content
    &&& a.file_path == b.file_path
    &&& a.file_format == b.file_format
    &&& a.record_count == b.record_count
    &&& a.file_size_in_bytes == b.file_size_in_bytes
}

/// Two records with the same partition values.
pub open spec fn same_partition(a: DataFileInfo, b: DataFileInfo) -> bool {
    partition_values(a.partition) == partition_values(b.partition)
}

/// What is read back of a file, for a table with the given partition spec: the same
/// file, under that spec.
pub open spec fn reads_as(
    read: DataFileInfo,
    file: DataFileInfo,
    partition_spec_id: i32,
) -> bool {
    same_file(read, file) && read.partition_spec_id == partition_spec_id
}

/// A bound is on a column of the schema, has the type of that column, and is a value of
/// that type.
pub open spec fn bound_fits(bound: BoundInfo, schema: Schema) -> bool {
    bound.matched && written_type(schema, bound.id) == Some(bound.type_text)
}

/// Every bound goes with its column.
pub open spec fn bounds_fit(bounds: Set<BoundInfo>, schema: Schema) -> bool {
    forall|bound: BoundInfo| #[trigger] bounds.contains(bound) ==> bound_fits(bound, schema)
}

/// Whether a partition value of a kind is read back from what is written of it, as a
/// value of a type.
pub open spec fn value_fits(kind: ValueKind, type_text: Option<Seq<char>>) -> bool {
    match (kind, type_text) {
        (ValueKind::Null, _) => true,
        (ValueKind::Boolean, _) => true,
        (ValueKind::Int, Some(text)) => text == "int"@ || text == "long"@ || text == "date"@,
        (ValueKind::Long, Some(text)) => text == "long"@ || text == "time"@ || text
            == "timestamp"@ || text == "timestamptz"@,
        (ValueKind::Text, Some(text)) => text == "string"@,
        _ => false,
    }
}

/// Whether a partition value of a kind is the same value when it is read back, as a value
/// of a type.
pub open spec fn value_kept(kind: ValueKind, type_text: Option<Seq<char>>) -> bool {
    value_fits(kind, type_text) && !(kind is Int && type_text == Some("long"@))
}

/// No two fields of a struct type share a name.
pub open spec fn distinct_names(fields: Seq<StructFieldInfo>) -> bool {
    forall|i: int, j: int|
        0 <= i < j < fields.len() ==> (#[trigger] fields[i]).name != (#[trigger] fields[j]).name
}

/// Every partition value is read back from what is written of it. Values beyond the
/// fields are not written.
pub open spec fn partition_fits(kinds: Seq<ValueKind>, fields: Seq<StructFieldInfo>) -> bool {
    &&& distinct_names(fields)
    &&& forall|i: int|
        0 <= i < kinds.len() && i < fields.len() ==> value_fits(
            #[trigger] kinds[i],
            fields[i].type_text,
        )
}

/// Every partition value is the same value when it is read back. Fields that have to have
/// a value are written before the others, and so their values may change places.
pub open spec fn partition_kept(kinds: Seq<ValueKind>, fields: Seq<StructFieldInfo>) -> bool {
    &&& distinct_names(fields)
    &&& kinds.len() <= fields.len()
    &&& forall|i: int|
        0 <= i < kinds.len() ==> value_kept(#[trigger] kinds[i], fields[i].type_text)
            && !fields[i].required
}

/// Whether a file's partition is the same when it is read back.
pub open spec fn keeps_partition(file: DataFile, partition_type: StructType) -> bool {
    partition_kept(
        partition_kinds(data_file_info(file).partition),
        struct_fields(partition_type),
    )
}

/// What is written of a file can be read back: the partition values are of kinds and
/// types that go together, and the bounds are values of the types of their columns.
pub open spec fn reads_back(file: DataFile, partition_type: StructType, schema: Schema) -> bool {
    &&& partition_fits(
        partition_kinds(data_file_info(file).partition),
        struct_fields(partition_type),
    )
    &&& bounds_fit(data_file_info(file).lower_bounds, schema)
    &&& bounds_fit(data_file_info(file).upper_bounds, schema)
}

/// `DataFileFormat::from_str` looks the string up in lower case among the names of
/// the formats, and fails on any other string. A string with a character beyond ASCII
/// has one in lower case too, or a `k`, and the names have neither.
#[verifier::external_body]
pub(crate) fn parse_file_format(text: &str) -> (result: Result<FileFormat, iceberg::Error>)
    ensures
        match result {
            Ok(format) => Some(format),
            Err(_) => None,
        } == format_named(text@),
{
    match DataFileFormat::from_str(text)? {
        DataFileFormat::Avro => Ok(FileFormat::Avro),
        DataFileFormat::Orc => Ok(FileFormat::Orc),
        DataFileFormat::Parquet => Ok(FileFormat::Parquet),
        DataFileFormat::Puffin => Ok(FileFormat::Puffin),
    }
}

/// [`serialize_data_file_to_json`] writes a data file as a text. Whoever reads that
/// text back as a file with the same partition type finds the same content, path,
/// format, record count and size in it, and their own partition spec. It can be read
/// back for sure where every partition value is a truth value, a whole number, a date, a
/// time or a text, as its field wants it, and every bound is a value of its column's type.
/// Elsewhere this is left unsaid. The partition values are the same ones where each of
/// them is of its field's own type, and no field has to have a value. Elsewhere they are
/// left unsaid, and so are the statistics that are read back.
#[verifier::external_body]
pub(crate) fn serialize_data_file(
    file: &DataFile,
    partition_type: &StructType,
    format_version: FormatVersion,
) -> (result: Result<String, iceberg::Error>)
    ensures
        result matches Ok(text) ==> data_file_texts(
            *file,
            *partition_type,
            format_version,
        ).contains(text@),
        result is Err ==> data_file_texts(*file, *partition_type, format_version).is_empty(),
        result matches Ok(text) ==> forall|partition_spec_id: i32, schema: Schema|
            #![trigger data_file_of(text@, partition_spec_id, *partition_type, schema)]
            {
                let read = data_file_of(text@, partition_spec_id, *partition_type, schema);
                &&& read matches Some(read) ==> reads_as(
                    data_file_info(read),
                    data_file_info(*file),
                    partition_spec_id,
                )
                &&& reads_back(*file, *partition_type, schema) ==> read is Some
                &&& keeps_partition(*file, *partition_type) ==> (read matches Some(read)
                    ==> same_partition(data_file_info(read), data_file_info(*file)))
            },
{
    serialize_data_file_to_json(file.clone(), partition_type, format_version)
}

/// [`deserialize_data_file_from_json`] reads a data file from a text, for a table
/// with the given partition spec, partition type and schema. The file is then under
/// that spec.
#[verifier::external_body]
pub(crate) fn deserialize_data_file(
    text: &str,
    partition_spec_id: i32,
    partition_type: &StructType,
    schema: &Schema,
) -> (result: Result<DataFile, iceberg::Error>)
    ensures
        result is Ok <==> data_file_of(
            text@,
            partition_spec_id,
            *partition_type,
            *schema,
        ) is Some,
        result matches Ok(file) ==> data_file_of(
            text@,
            partition_spec_id,
            *partition_type,
            *schema,
        ) == Some(file),
        result matches Ok(file) ==> data_file_info(file).partition_spec_id == partition_spec_id,
{
    deserialize_data_file_from_json(text, partition_spec_id, partition_type, schema)
}

/// One field of a struct type.
pub struct StructField {
    pub name: String,
    /// How the type is written, if it has no parts.
    pub type_text: Option<String>,
    /// Whether there has to be a value.
    pub required: bool,
}

impl View for StructField {
    type V = StructFieldInfo;

    open spec fn view(&self) -> StructFieldInfo {
        StructFieldInfo {
            name: self.name@,
            type_text: match self.type_text {
                Some(text) => Some(text@),
                None => None,
            },
            required: self.required,
        }
    }
}

/// What the fields of a struct type say.
pub open spec fn field_infos(fields: Seq<StructField>) -> Seq<StructFieldInfo> {
    fields.map_values(|field: StructField| field@)
}

/// [`StructType::fields`] hands out the fields of a struct type, in order. Their types
/// are written out, if they have no parts.
#[verifier::external_body]
fn fields_of_struct(struct_type: &StructType) -> (fields: Vec<StructField>)
    ensures
        field_infos(fields@) == struct_fields(*struct_type),
{
    let text = |field: &NestedField| field.field_type.as_primitive_type().map(|t| t.to_string());
    let fields = struct_type.fields().iter().map(|field| StructField {
        name: field.name.clone(),
        type_text: text(field),
        required: field.required,
    });
    fields.collect()
}

/// [`DataFile::partition`] returns the partition values of the file.
pub assume_specification[ DataFile::partition ](file: &DataFile) -> (partition: &Struct)
    ensures
        *partition == data_file_info(*file).partition,
;

/// [`Struct::fields`] hands out the values of a partition, in order. The variants of
/// [`Literal`] and [`PrimitiveLiteral`] are their kinds.
#[verifier::external_body]
fn kinds_of(partition: &Struct) -> (kinds: Vec<ValueKind>)
    ensures
        kinds@ == partition_kinds(*partition),
{
    let kind = |value: &Option<Literal>| match value {
        None => ValueKind::Null,
        Some(Literal::Primitive(PrimitiveLiteral::Boolean(_))) => ValueKind::Boolean,
        Some(Literal::Primitive(PrimitiveLiteral::Int(_))) => ValueKind::Int,
        Some(Literal::Primitive(PrimitiveLiteral::Long(_))) => ValueKind::Long,
        Some(Literal::Primitive(PrimitiveLiteral::String(_))) => ValueKind::Text,
        Some(_) => ValueKind::Other,
    };
    partition.fields().iter().map(kind).collect()
}

/// Checks whether a partition value of a kind is read back as a value of a type.
fn check_value(kind: ValueKind, type_text: &Option<String>) -> (fits: bool)
    ensures
        fits == value_fits(
            kind,
            match type_text {
                Some(text) => Some(text@),
                None => None,
            },
        ),
{
    match (kind, type_text) {
        (ValueKind::Null, _) => true,
        (ValueKind::Boolean, _) => true,
        (ValueKind::Int, Some(text)) => {
            same_text(text.as_str(), "int") || same_text(text.as_str(), "long") || same_text(
                text.as_str(),
                "date",
            )
        },
        (ValueKind::Long, Some(text)) => {
            same_text(text.as_str(), "long") || same_text(text.as_str(), "time") || same_text(
                text.as_str(),
                "timestamp",
            ) || same_text(text.as_str(), "timestamptz")
        },
        (ValueKind::Text, Some(text)) => same_text(text.as_str(), "string"),
        _ => false,
    }
}

/// Checks whether no two fields share a name.
fn check_names(fields: &Vec<StructField>) -> (distinct: bool)
    ensures
        distinct == distinct_names(field_infos(fields@)),
{
    let ghost all = field_infos(fields@);
    let mut i: usize = 0;
    while i < fields.len()
        invariant
            i <= fields.len(),
            all == field_infos(fields@),
            forall|a: int, b: int|
                0 <= a < b < all.len() && a < i ==> (#[trigger] all[a]).name != (
                #[trigger] all[b]).name,
        decreases fields.len() - i,
    {
        let mut j: usize = i + 1;
        while j < fields.len()
            invariant
                i < j <= fields.len(),
                all == field_infos(fields@),
                forall|b: int| i < b < j ==> all[i as int].name != (#[trigger] all[b]).name,
            decreases fields.len() - j,
        {
            assert(all[i as int].name == fields@[i as int].name@);
            assert(all[j as int].name == fields@[j as int].name@);
            if same_text(fields[i].name.as_str(), fields[j].name.as_str()) {
                return false;
            }
            j = j + 1;
        }
        i = i + 1;
    }
    true
}

/// Checks whether every partition value is read back from what is written of it.
fn check_partition_values(kinds: &Vec<ValueKind>, fields: &Vec<StructField>) -> (fit: bool)
    ensures
        fit == partition_fits(kinds@, field_infos(fields@)),
{
    if !check_names(fields) {
        return false;
    }
    let ghost all = field_infos(fields@);
    let mut i: usize = 0;
    while i < kinds.len() && i < fields.len()
        invariant
            i <= kinds.len(),
            i <= fields.len(),
            all == field_infos(fields@),
            forall|k: int| 0 <= k < i ==> value_fits(#[trigger] kinds@[k], all[k].type_text),
        decreases kinds.len() - i,
    {
        if !check_value(kinds[i], &fields[i].type_text) {
            assert(!value_fits(kinds@[i as int], all[i as int].type_text));
            return false;
        }
        i = i + 1;
    }
    true
}

/// Checks whether every partition value is the same value when it is read back.
fn check_partition_kept(kinds: &Vec<ValueKind>, fields: &Vec<StructField>) -> (kept: bool)
    ensures
        kept == partition_kept(kinds@, field_infos(fields@)),
{
    if !check_names(fields) || kinds.len() > fields.len() {
        return false;
    }
    let ghost all = field_infos(fields@);
    let mut i: usize = 0;
    while i < kinds.len()
        invariant
            i <= kinds.len(),
            kinds.len() <= fields.len(),
            all == field_infos(fields@),
            forall|k: int|
                0 <= k < i ==> value_kept(#[trigger] kinds@[k], all[k].type_text)
                    && !all[k].required,
        decreases kinds.len() - i,
    {
        let widened = match (kinds[i], &fields[i].type_text) {
            (ValueKind::Int, Some(text)) => same_text(text.as_str(), "long"),
            _ => false,
        };
        if widened || fields[i].required || !check_value(kinds[i], &fields[i].type_text) {
            assert(!value_kept(kinds@[i as int], all[i as int].type_text)
                || all[i as int].required);
            return false;
        }
        i = i + 1;
    }
    true
}

/// The smallest or largest value of a column, as it is recorded.
pub struct Bound {
    /// The column's number.
    pub id: i32,
    /// How the value's type is written.
    pub type_text: String,
    /// Whether the value is one of its type.
    pub matched: bool,
}

impl View for Bound {
    type V = BoundInfo;

    open spec fn view(&self) -> BoundInfo {
        BoundInfo { id: self.id, type_text: self.type_text@, matched: self.matched }
    }
}

/// What the bounds in a list are.
pub open spec fn listed_bounds(bounds: Seq<Bound>) -> Set<BoundInfo> {
    bounds.map_values(|bound: Bound| bound@).to_set()
}

/// [`DataFile::lower_bounds`] hands out the smallest values that the file records, in
/// no fixed order. `PrimitiveType::compatible` tells whether the variant of a value's
/// [`PrimitiveLiteral`] is the one for its type.
#[verifier::external_body]
fn lower_bounds_of(file: &DataFile) -> (bounds: Vec<Bound>)
    ensures
        listed_bounds(bounds@) == data_file_info(*file).lower_bounds,
{
    let bounds = file.lower_bounds().iter().map(|(id, value)| Bound {
        id: *id,
        type_text: value.data_type().to_string(),
        matched: value.data_type().compatible(value.literal()),
    });
    bounds.collect()
}

/// [`DataFile::upper_bounds`] hands out the largest values that the file records, in
/// no fixed order. `PrimitiveType::compatible` tells whether the variant of a value's
/// [`PrimitiveLiteral`] is the one for its type.
#[verifier::external_body]
fn upper_bounds_of(file: &DataFile) -> (bounds: Vec<Bound>)
    ensures
        listed_bounds(bounds@) == data_file_info(*file).upper_bounds,
{
    let bounds = file.upper_bounds().iter().map(|(id, value)| Bound {
        id: *id,
        type_text: value.data_type().to_string(),
        matched: value.data_type().compatible(value.literal()),
    });
    bounds.collect()
}

/// [`Schema::field_by_id`] finds a column by its number. Its type is written out, if it
/// has no parts.
#[verifier::external_body]
fn written_type_of(schema: &Schema, id: i32) -> (type_text: Option<String>)
    ensures
        match type_text {
            Some(type_text) => Some(type_text@),
            None => None,
        } == written_type(*schema, id),
{
    let field = schema.field_by_id(id)?;
    field.field_type.as_primitive_type().map(|plain| plain.to_string())
}

/// Checks whether every bound goes with its column.
fn check_bounds(bounds: &Vec<Bound>, schema: &Schema) -> (fit: bool)
    ensures
        fit == bounds_fit(listed_bounds(bounds@), *schema),
{
    let ghost all = bounds@.map_values(|bound: Bound| bound@);
    let mut i: usize = 0;
    while i < bounds.len()
        invariant
            i <= bounds.len(),
            all == bounds@.map_values(|bound: Bound| bound@),
            forall|k: int| 0 <= k < i ==> bound_fits(#[trigger] all[k], *schema),
        decreases bounds.len() - i,
    {
        assert(all[i as int] == bounds@[i as int]@);
        let found = match written_type_of(schema, bounds[i].id) {
            None => false,
            Some(type_text) => same_text(type_text.as_str(), bounds[i].type_text.as_str()),
        };
        if !found || !bounds[i].matched {
            assert(all.contains(all[i as int]));
            assert(all.to_set().contains(all[i as int]));
            return false;
        }
        i = i + 1;
    }
    assert forall|bound: BoundInfo| #[trigger] all.to_set().contains(bound) implies bound_fits(
        bound,
        *schema,
    ) by {
        assert(all.contains(bound));
        let k = choose|k: int| 0 <= k < all.len() && all[k] == bound;
        assert(bound_fits(all[k], *schema));
    }
    true
}

/// [`DataFile::record_count`] returns the number of records in the file.
pub assume_specification[ DataFile::record_count ](file: &DataFile) -> (count: u64)
    ensures
        count == data_file_info(*file).record_count,
;

/// [`Struct::empty`] makes a partition without values.
pub assume_specification[ Struct::empty ]() -> (partition: Struct)
    ensures
        partition_values(partition).len() == 0,
;

/// [`DataFileBuilder`] makes a data file of the values that it is given, without
/// statistics. It fails only where a value without a default is left out, and all of
/// them are given here.
#[verifier::external_body]
pub(crate) fn build_data_file(
    file_path: String,
    partition_spec_id: i32,
    partition: Struct,
    file_format: FileFormat,
    file_size_in_bytes: u64,
    record_count: u64,
) -> (result: Result<DataFile, String>)
    ensures
        result is Ok,
        result matches Ok(file) ==> data_file_info(file) == (DataFileInfo {
            content: FileContent::Data,
            file_path: file_path@,
            file_format,
            partition,
            partition_spec_id,
            record_count,
            file_size_in_bytes,
            lower_bounds: Set::empty(),
            upper_bounds: Set::empty(),
        }),
{
    let mut builder = DataFileBuilder::default();
    builder.file_path(file_path).partition_spec_id(partition_spec_id).partition(partition);
    builder.file_format(match file_format {
        FileFormat::Avro => DataFileFormat::Avro,
        FileFormat::Orc => DataFileFormat::Orc,
        FileFormat::Parquet => DataFileFormat::Parquet,
        FileFormat::Puffin => DataFileFormat::Puffin,
    });
    builder.file_size_in_bytes(file_size_in_bytes).record_count(record_count);
    builder.content(DataContentType::Data).build().map_err(|e| e.to_string())
}

/// `Table::identifier` returns the namespace of the table and its name there.
#[verifier::external_body]
fn table_identifier(table: &Table) -> (identifier: (Vec<String>, String))
    ensures
        texts(identifier.0@) == table_namespace(*table),
        identifier.1@ == table_name(*table),
{
    let identifier = table.identifier();
    (identifier.namespace.clone().inner(), identifier.name.clone())
}

/// [`Table::metadata`] returns the metadata of the table.
pub assume_specification[ Table::metadata ](table: &Table) -> (metadata: &TableMetadata)
    ensures
        *metadata == table_metadata(*table),
;

/// [`TableMetadata::default_partition_spec_id`] returns the number of the partition
/// spec that new files are written with.
pub assume_specification[ TableMetadata::default_partition_spec_id ](
    metadata: &TableMetadata,
) -> (id: i32)
    ensures
        id == default_spec_id(*metadata),
;

/// [`TableMetadata::current_schema`] returns the current schema. Metadata without
/// one is refused where it is made.
pub assume_specification[ TableMetadata::current_schema ](metadata: &TableMetadata) -> (schema:
    &SchemaRef)
    ensures
        *schema == current_schema(*metadata),
;

/// [`TableMetadata::format_version`] returns the version of the table format.
pub assume_specification[ TableMetadata::format_version ](metadata: &TableMetadata) -> (version:
    FormatVersion)
    ensures
        version == format_version(*metadata),
;

/// [`TableMetadata::default_partition_type`] returns the type of the partition values
/// of new files.
#[verifier::external_body]
fn partition_type_of(metadata: &TableMetadata) -> (partition_type: StructType)
    ensures
        partition_type == default_partition_type(*metadata),
{
    metadata.default_partition_type().clone()
}

/// [`TableMetadata::table_properties`] reads the properties of a table, among them
/// the format of new files. It fails where a property cannot be read.
#[verifier::external_body]
fn write_format_of(metadata: &TableMetadata) -> (result: Result<String, iceberg::Error>)
    ensures
        result is Ok <==> write_format(*metadata) is Some,
        result matches Ok(format) ==> write_format(*metadata) == Some(format@),
{
    Ok(metadata.table_properties()?.write_format_default)
}

/// `Table::clone` makes a table of the same name in the same namespace, with the
/// same metadata.
pub assume_specification[ <Table as Clone>::clone ](table: &Table) -> (copy: Table)
    ensures
        table_metadata(copy) == table_metadata(*table),
        table_namespace(copy) == table_namespace(*table),
        table_name(copy) == table_name(*table),
;

/// How a table is called: the levels of its namespace and its name, with dots
/// between them.
pub open spec fn qualified_name(table: Table) -> Seq<char> {
    joined(table_namespace(table), "."@) + "."@ + table_name(table)
}

/// Writes how a table is called.
pub fn table_text(table: &Table) -> (text: String)
    ensures
        text@ == qualified_name(*table),
{
    let identifier = table_identifier(table);
    let mut text = join(&identifier.0, ".");
    text.append(".");
    text.append(identifier.1.as_str());
    text
}

/// What reading and writing the files of one table takes.
#[derive(Debug)]
pub struct TableInfo {
    /// The partition spec that new files are written with.
    pub partition_spec_id: i32,
    /// The type of the partition values under that spec.
    pub partition_type: StructType,
    /// The table's current schema.
    pub schema: Arc<Schema>,
    /// The version of the table format.
    pub format_version: FormatVersion,
}

impl TableInfo {
    /// The texts that a file of this table may be written as.
    pub open spec fn texts_of(self, file: DataFile) -> Set<Seq<char>> {
        data_file_texts(file, self.partition_type, self.format_version)
    }

    /// The file of this table that a text stands for.
    pub open spec fn file_of(self, text: Seq<char>) -> Option<DataFile> {
        data_file_of(text, self.partition_spec_id, self.partition_type, *self.schema)
    }

    /// What is written of a file of this table can be read back.
    pub open spec fn can_read_back(self, file: DataFile) -> bool {
        reads_back(file, self.partition_type, *self.schema)
    }

    /// Checks whether it is sure that what is written of a file can be read back.
    pub fn reads_back(&self, file: &DataFile) -> (sure: bool)
        ensures
            sure == self.can_read_back(*file),
    {
        check_partition_values(&kinds_of(file.partition()), &fields_of_struct(&self.partition_type))
            && check_bounds(&lower_bounds_of(file), &self.schema)
            && check_bounds(&upper_bounds_of(file), &self.schema)
    }

    /// Checks whether a file's partition is the same when it is read back.
    pub fn keeps_partition(&self, file: &DataFile) -> (kept: bool)
        ensures
            kept == keeps_partition(*file, self.partition_type),
    {
        check_partition_kept(&kinds_of(file.partition()), &fields_of_struct(&self.partition_type))
    }

    /// What a table's metadata says.
    pub fn of(table: &Table) -> (info: TableInfo)
        ensures
            info == described(*table),
    {
        let metadata = table.metadata();
        TableInfo {
            partition_spec_id: metadata.default_partition_spec_id(),
            partition_type: partition_type_of(metadata),
            schema: metadata.current_schema().clone(),
            format_version: metadata.format_version(),
        }
    }
}

/// What reading and writing the files of a table takes.
pub open spec fn described(table: Table) -> TableInfo {
    TableInfo {
        partition_spec_id: default_spec_id(table_metadata(table)),
        partition_type: default_partition_type(table_metadata(table)),
        schema: current_schema(table_metadata(table)),
        format_version: format_version(table_metadata(table)),
    }
}

/// The refusal of a format that rows cannot be written in.
pub open spec fn unsupported_format(format: FileFormat, operation: Seq<char>) -> Seq<char> {
    "File format "@ + format.chars() + " is not supported for "@ + operation + " yet!"@
}

/// Checks that a table asks for its files in the one format that rows can be
/// written in, Parquet.
pub fn check_write_format(format_name: &str, operation: &str) -> (result: Result<(), ExecError>)
    ensures
        match format_named(format_name@) {
            None => result matches Err(ExecError::Iceberg(_)),
            Some(FileFormat::Parquet) => result is Ok,
            Some(format) => result matches Err(ExecError::FeatureUnsupported(message)) && message@
                == unsupported_format(format, operation@),
        },
{
    match parse_file_format(format_name) {
        Err(error) => Err(ExecError::Iceberg(error)),
        Ok(format) => {
            if format == FileFormat::Parquet {
                return Ok(());
            }
            let mut message = "File format ".to_string();
            message.append(format.name());
            message.append(" is not supported for ");
            message.append(operation);
            message.append(" yet!");
            Err(ExecError::FeatureUnsupported(message))
        },
    }
}

/// What asking a table whether its rows can be written comes to.
pub open spec fn write_checked(
    table: Table,
    operation: Seq<char>,
    result: Result<TableInfo, ExecError>,
) -> bool {
    match write_format(table_metadata(table)) {
        None => result matches Err(ExecError::Iceberg(_)),
        Some(name) => match format_named(name) {
            None => result matches Err(ExecError::Iceberg(_)),
            Some(FileFormat::Parquet) => result == Ok::<TableInfo, ExecError>(described(table)),
            Some(format) => result matches Err(ExecError::FeatureUnsupported(message)) && message@
                == unsupported_format(format, operation),
        },
    }
}

/// Checks that rows can be written to a table, and says what that takes.
pub fn prepare_write(table: &Table, operation: &str) -> (result: Result<TableInfo, ExecError>)
    ensures
        write_checked(*table, operation@, result),
{
    match write_format_of(table.metadata()) {
        Err(error) => Err(ExecError::Iceberg(error)),
        Ok(format_name) => match check_write_format(format_name.as_str(), operation) {
            Err(error) => Err(error),
            Ok(()) => Ok(TableInfo::of(table)),
        },
    }
}

/// Some file in the list cannot be written as a text.
pub open spec fn unwritable(files: Seq<DataFile>, table: TableInfo) -> bool {
    exists|i: int| 0 <= i < files.len() && table.texts_of(#[trigger] files[i]).is_empty()
}

/// A text stands for a file: it is one that the file may be written as, and whatever
/// is read back from it is the same file. Something is read back for sure where the
/// file's partition values and bounds are values of the types that the table gives them.
pub open spec fn stands_for(text: Seq<char>, file: DataFile, table: TableInfo) -> bool {
    &&& table.texts_of(file).contains(text)
    &&& table.file_of(text) matches Some(read) ==> reads_as(
        data_file_info(read),
        data_file_info(file),
        table.partition_spec_id,
    )
    &&& table.can_read_back(file) ==> table.file_of(text) is Some
    &&& keeps_partition(file, table.partition_type) ==> (table.file_of(text) matches Some(read)
        ==> same_partition(data_file_info(read), data_file_info(file)))
}

/// The texts stand for the files, one for each and in order.
pub open spec fn written(
    written_texts: Seq<Seq<char>>,
    files: Seq<DataFile>,
    table: TableInfo,
) -> bool {
    &&& written_texts.len() == files.len()
    &&& forall|i: int|
        0 <= i < files.len() ==> stands_for(#[trigger] written_texts[i], files[i], table)
}

/// Writes data files as texts, one for each and in order. Fails exactly if one of
/// them cannot be written.
pub fn serialize_data_files(files: &Vec<DataFile>, table: &TableInfo) -> (result: Result<
    Vec<String>,
    ExecError,
>)
    ensures
        match result {
            Ok(strings) => !unwritable(files@, *table) && written(texts(strings@), files@, *table),
            Err(ExecError::Iceberg(_)) => unwritable(files@, *table),
            Err(_) => false,
        },
{
    let mut strings: Vec<String> = Vec::new();
    let mut i: usize = 0;
    while i < files.len()
        invariant
            i <= files.len(),
            strings.len() == i,
            forall|k: int| 0 <= k < i ==> stands_for((#[trigger] strings[k])@, files[k], *table),
        decreases files.len() - i,
    {
        let format_version = table.format_version;
        match serialize_data_file(&files[i], &table.partition_type, format_version) {
            Err(error) => {
                assert(table.texts_of(files[i as int]).is_empty());
                return Err(ExecError::Iceberg(error));
            },
            Ok(string) => {
                strings.push(string);
            },
        }
        i = i + 1;
    }
    proof {
        assert forall|k: int| 0 <= k < files.len() implies !table.texts_of(
            #[trigger] files[k],
        ).is_empty() by {
            assert(stands_for(strings[k]@, files[k], *table));
        }
    }
    Ok(strings)
}

/// Every text stands for a file of the table.
pub open spec fn all_files(strings: Seq<Seq<char>>, table: TableInfo) -> bool {
    forall|i: int| 0 <= i < strings.len() ==> table.file_of(#[trigger] strings[i]) is Some
}

/// What is written of a table's files can be read back, as long as their partition
/// values and bounds are values of the types that the table gives them.
pub proof fn written_files_read_back(
    strings: Seq<Seq<char>>,
    files: Seq<DataFile>,
    table: TableInfo,
)
    requires
        written(strings, files, table),
        forall|i: int| 0 <= i < files.len() ==> table.can_read_back(#[trigger] files[i]),
    ensures
        all_files(strings, table),
{
    assert forall|i: int| 0 <= i < strings.len() implies table.file_of(
        #[trigger] strings[i],
    ) is Some by {
        assert(stands_for(strings[i], files[i], table));
        assert(table.can_read_back(files[i]));
    }
}

/// The files that texts stand for, one for each and in order.
pub open spec fn files_of(strings: Seq<Seq<char>>, table: TableInfo) -> Seq<DataFile> {
    strings.map_values(|text: Seq<char>| table.file_of(text)->Some_0)
}

/// Reads data files from texts, one for each and in order. Fails exactly if one of
/// the texts stands for no file.
pub fn deserialize_data_files(strings: &Vec<String>, table: &TableInfo) -> (result: Result<
    Vec<DataFile>,
    ExecError,
>)
    ensures
        match result {
            Ok(files) => all_files(texts(strings@), *table) && files@ == files_of(
                texts(strings@),
                *table,
            ),
            Err(ExecError::Iceberg(_)) => !all_files(texts(strings@), *table),
            Err(_) => false,
        },
{
    let mut files: Vec<DataFile> = Vec::new();
    let mut i: usize = 0;
    while i < strings.len()
        invariant
            i <= strings.len(),
            files.len() == i,
            forall|k: int|
                0 <= k < i ==> table.file_of((#[trigger] strings[k])@) == Some(files[k]),
        decreases strings.len() - i,
    {
        match deserialize_data_file(
            strings[i].as_str(),
            table.partition_spec_id,
            &table.partition_type,
            &table.schema,
        ) {
            Err(error) => {
                assert(texts(strings@)[i as int] == strings[i as int]@);
                return Err(ExecError::Iceberg(error));
            },
            Ok(file) => {
                files.push(file);
            },
        }
        i = i + 1;
    }
    assert(files@ =~= files_of(texts(strings@), *table));
    Ok(files)
}

} // verus!
