//! Partition-aware merges.
//!
//! A MERGE joins a target table with a source. Where the join keys cover the
//! partition columns of the target, both sides can be distributed by partition
//! first: rows that match then meet in the same partition, and no row has to cross
//! over to another.

use iceberg::spec::{Schema, TableMetadata, Transform as SpecTransform};
use iceberg::table::Table;
use vstd::prelude::*;

use crate::files::{self, table_metadata};
use crate::text::same_text;

verus! {

/// How a partition value comes out of a column.
#[derive(Clone, Copy, Debug, PartialEq, Eq, Structural)]
pub enum Transform {
    /// The value itself.
    Identity,
    /// The hash of the value, modulo a number of buckets.
    Bucket(u32),
    /// The value, truncated to a width.
    Truncate(u32),
    /// The year of a date or time.
    Year,
    /// The month of a date or time.
    Month,
    /// The day of a date or time.
    Day,
    /// The hour of a time.
    Hour,
    /// Always null.
    Void,
    /// Not known to this version.
    Unknown,
}

impl Transform {
    /// The transform goes with distribution by hashing: it is a bare or a bucketed
    /// column.
    pub open spec fn hash_compatible(self) -> bool {
        self is Identity || self is Bucket
    }
}

/// One column of a partition spec.
#[derive(Debug)]
pub struct PartitionField {
    /// The column of the table's schema that the partition value comes from.
    pub source_id: i32,
    /// The field's own number in the spec.
    pub field_id: i32,
    /// The field's name.
    pub name: String,
    /// How the partition value comes out of the column.
    pub transform: Transform,
}

/// What a partition field says.
pub struct PartitionFieldInfo {
    pub source_id: i32,
    pub field_id: i32,
    pub name: Seq<char>,
    pub transform: Transform,
}

impl View for PartitionField {
    type V = PartitionFieldInfo;

    open spec fn view(&self) -> PartitionFieldInfo {
        PartitionFieldInfo {
            source_id: self.source_id,
            field_id: self.field_id,
            name: self.name@,
            transform: self.transform,
        }
    }
}

/// What each partition field says.
pub open spec fn infos(partition_fields: Seq<PartitionField>) -> Seq<PartitionFieldInfo> {
    partition_fields.map_values(|field: PartitionField| field@)
}

/// The fields of the partition spec that new files are written with.
pub uninterp spec fn default_partition_fields(metadata: TableMetadata) -> Seq<PartitionFieldInfo>;

/// `TableMetadata::default_partition_spec` returns the partition spec that new files
/// are written with, and `PartitionSpec::fields` its fields.
#[verifier::external_body]
fn partition_fields_of(metadata: &TableMetadata) -> (fields: Vec<PartitionField>)
    ensures
        infos(fields@) == default_partition_fields(*metadata),
{
    metadata.default_partition_spec().fields().iter().map(|field| PartitionField {
        source_id: field.source_id,
        field_id: field.field_id,
        name: field.name.clone(),
        transform: match field.transform {
            SpecTransform::Identity => Transform::Identity,
            SpecTransform::Bucket(buckets) => Transform::Bucket(buckets),
            SpecTransform::Truncate(width) => Transform::Truncate(width),
            SpecTransform::Year => Transform::Year,
            SpecTransform::Month => Transform::Month,
            SpecTransform::Day => Transform::Day,
            SpecTransform::Hour => Transform::Hour,
            SpecTransform::Void => Transform::Void,
            SpecTransform::Unknown => Transform::Unknown,
        } }).collect()
}

/// The full name of a column of a schema, by its number.
pub uninterp spec fn column_name(schema: Schema, id: i32) -> Option<Seq<char>>;

/// [`Schema::name_by_field_id`] finds the full name of a column by its number.
#[verifier::external_body]
fn name_of_column(schema: &Schema, id: i32) -> (name: Option<String>)
    ensures
        match name {
            Some(name) => Some(name@),
            None => None,
        } == column_name(*schema, id),
{
    schema.name_by_field_id(id).map(|name| name.to_string())
}

/// Some join key names the column on its target side.
pub open spec fn is_join_key(column: Seq<char>, join_keys: Seq<(String, String)>) -> bool {
    exists|i: int| 0 <= i < join_keys.len() && (#[trigger] join_keys[i]).0@ == column
}

/// The partition field does not stand in the way of co-locating the two sides.
pub open spec fn co_locatable(field: PartitionFieldInfo, join_keys: Seq<(String, String)>) -> bool {
    is_join_key(field.name, join_keys) && field.transform.hash_compatible()
}

/// No partition field stands in the way of co-locating the two sides.
pub open spec fn applicable(
    partition_fields: Seq<PartitionFieldInfo>,
    join_keys: Seq<(String, String)>,
) -> bool {
    forall|i: int|
        0 <= i < partition_fields.len() ==> co_locatable(#[trigger] partition_fields[i], join_keys)
}

/// The fields split a table into one partition only: there is none, or each is
/// always null.
pub open spec fn unpartitioned(partition_fields: Seq<PartitionFieldInfo>) -> bool {
    forall|i: int|
        0 <= i < partition_fields.len() ==> (#[trigger] partition_fields[i]).transform is Void
}

fn has_join_key(column: &str, join_keys: &[(String, String)]) -> (found: bool)
    ensures
        found == is_join_key(column@, join_keys@),
{
    let mut i: usize = 0;
    while i < join_keys.len()
        invariant
            i <= join_keys.len(),
            forall|k: int| 0 <= k < i ==> (#[trigger] join_keys[k]).0@ != column@,
        decreases join_keys.len() - i,
    {
        if same_text(join_keys[i].0.as_str(), column) {
            return true;
        }
        i = i + 1;
    }
    false
}

/// Checks whether co-locating the two sides of a merge is possible: the join keys
/// cover all partition columns, and every partition transform goes with hashing. The
/// fields bear the names of their columns.
pub fn is_optimization_applicable(
    partition_fields: &[PartitionField],
    join_keys: &[(String, String)],
) -> (result: bool)
    ensures
        result == applicable(infos(partition_fields@), join_keys@),
{
    let mut i: usize = 0;
    while i < partition_fields.len()
        invariant
            i <= partition_fields.len(),
            forall|k: int|
                0 <= k < i ==> co_locatable((#[trigger] partition_fields[k])@, join_keys@),
        decreases partition_fields.len() - i,
    {
        let field = &partition_fields[i];
        if !has_join_key(field.name.as_str(), join_keys) {
            assert(!co_locatable(infos(partition_fields@)[i as int], join_keys@));
            return false;
        }
        match field.transform {
            Transform::Identity | Transform::Bucket(_) => {},
            Transform::Year
            | Transform::Month
            | Transform::Day
            | Transform::Hour
            | Transform::Truncate(_)
            | Transform::Void
            | Transform::Unknown => {
                assert(!co_locatable(infos(partition_fields@)[i as int], join_keys@));
                return false;
            },
        }
        i = i + 1;
    }
    true
}

/// Checks whether the fields split a table into one partition only.
pub fn is_unpartitioned(partition_fields: &[PartitionField]) -> (result: bool)
    ensures
        result == unpartitioned(infos(partition_fields@)),
{
    let mut i: usize = 0;
    while i < partition_fields.len()
        invariant
            i <= partition_fields.len(),
            forall|k: int| 0 <= k < i ==> (#[trigger] partition_fields[k]).transform is Void,
        decreases partition_fields.len() - i,
    {
        match partition_fields[i].transform {
            Transform::Void => {},
            _ => {
                assert(!(infos(partition_fields@)[i as int].transform is Void));
                return false;
            },
        }
        i = i + 1;
    }
    true
}

/// A partition field under the name of the column that its values come from.
pub open spec fn under_column(
    field: PartitionFieldInfo,
    schema: Schema,
) -> Option<PartitionFieldInfo> {
    match column_name(schema, field.source_id) {
        Some(name) => Some(PartitionFieldInfo { name, ..field }),
        None => None,
    }
}

/// Puts each partition field under the name of the column that its values come from.
/// There is nothing to show for it if one of the columns is not in the schema.
pub fn partition_columns(partition_fields: &[PartitionField], schema: &Schema) -> (result: Option<
    Vec<PartitionField>,
>)
    ensures
        match result {
            Some(columns) => {
                &&& columns.len() == partition_fields.len()
                &&& forall|i: int|
                    0 <= i < columns.len() ==> under_column(partition_fields[i]@, *schema) == Some(
                        (#[trigger] columns[i])@,
                    )
            },
            None => exists|i: int|
                0 <= i < partition_fields.len() && under_column(
                    (#[trigger] partition_fields[i])@,
                    *schema,
                ) is None,
        },
{
    let mut columns: Vec<PartitionField> = Vec::new();
    let mut i: usize = 0;
    while i < partition_fields.len()
        invariant
            i <= partition_fields.len(),
            columns.len() == i,
            forall|k: int|
                0 <= k < i ==> under_column(partition_fields[k]@, *schema) == Some(
                    (#[trigger] columns[k])@,
                ),
        decreases partition_fields.len() - i,
    {
        let field = &partition_fields[i];
        match name_of_column(schema, field.source_id) {
            None => {
                assert(under_column(partition_fields[i as int]@, *schema) is None);
                return None;
            },
            Some(name) => {
                columns.push(
                    PartitionField {
                        source_id: field.source_id,
                        field_id: field.field_id,
                        name,
                        transform: field.transform,
                    },
                );
            },
        }
        i = i + 1;
    }
    Some(columns)
}

/// The join keys cover the column that a partition field's values come from, and the
/// transform goes with hashing.
pub open spec fn covered(
    field: PartitionFieldInfo,
    schema: Schema,
    join_keys: Seq<(String, String)>,
) -> bool {
    (column_name(schema, field.source_id) matches Some(column) && is_join_key(column, join_keys))
        && field.transform.hash_compatible()
}

/// A merge into the table co-locates the two sides: the table is partitioned, the join
/// keys cover all partition columns, and every partition transform goes with hashing.
pub open spec fn co_located(table: Table, join_keys: Seq<(String, String)>) -> bool {
    let partition_fields = default_partition_fields(table_metadata(table));
    let schema = files::current_schema(table_metadata(table));
    &&& !unpartitioned(partition_fields)
    &&& forall|i: int|
        0 <= i < partition_fields.len() ==> covered(
            #[trigger] partition_fields[i],
            *schema,
            join_keys,
        )
}

/// Checks whether a merge into the table co-locates the two sides.
pub fn co_locates(table: &Table, join_keys: &[(String, String)]) -> (result: bool)
    ensures
        result == co_located(*table, join_keys@),
{
    let metadata = table.metadata();
    let partition_fields = partition_fields_of(metadata);
    let ghost fields = default_partition_fields(*metadata);
    let ghost schema = files::current_schema(*metadata);
    assert(infos(partition_fields@) == fields);
    if is_unpartitioned(partition_fields.as_slice()) {
        return false;
    }
    assert forall|i: int| 0 <= i < fields.len() implies fields[i] == (
    #[trigger] partition_fields@[i])@ by {
        assert(infos(partition_fields@)[i] == partition_fields@[i]@);
    }
    match partition_columns(partition_fields.as_slice(), metadata.current_schema()) {
        None => {
            proof {
                let i = choose|i: int|
                    0 <= i < partition_fields.len() && under_column(
                        (#[trigger] partition_fields@[i])@,
                        *schema,
                    ) is None;
                assert(!covered(fields[i], *schema, join_keys@));
            }
            false
        },
        Some(columns) => {
            let result = is_optimization_applicable(columns.as_slice(), join_keys);
            proof {
                assert(infos(columns@).len() == fields.len());
                assert forall|i: int| 0 <= i < fields.len() implies covered(
                    #[trigger] fields[i],
                    *schema,
                    join_keys@,
                ) == co_locatable(infos(columns@)[i], join_keys@) by {
                    assert(fields[i] == partition_fields@[i]@);
                    assert(infos(columns@)[i] == columns@[i]@);
                }
                if result {
                    assert(co_located(*table, join_keys@));
                } else {
                    let i = choose|i: int|
                        0 <= i < infos(columns@).len() && !co_locatable(
                            #[trigger] infos(columns@)[i],
                            join_keys@,
                        );
                    assert(!covered(fields[i], *schema, join_keys@));
                }
            }
            result
        },
    }
}

/// What adding the partition column to a plan, and then distributing the plan over
/// `partitions` partitions, can come to.
pub open spec fn distributed<P, E, A: Fn(P) -> Result<P, E>, R: Fn(P, usize) -> Result<P, E>>(
    plan: P,
    partitions: usize,
    add_partition: A,
    repartition: R,
    outcome: Result<P, E>,
) -> bool {
    ||| outcome is Err && add_partition.ensures((plan,), outcome)
    ||| exists|extended: P| #[trigger]
        add_partition.ensures((plan,), Ok(extended)) && repartition.ensures(
            (extended, partitions),
            outcome,
        )
}

fn distribute<P, E, A: Fn(P) -> Result<P, E>, R: Fn(P, usize) -> Result<P, E>>(
    plan: P,
    partitions: usize,
    add_partition: &A,
    repartition: &R,
) -> (outcome: Result<P, E>)
    requires
        forall|p: P| #[trigger] add_partition.requires((p,)),
        forall|p: P| #[trigger] repartition.requires((p, partitions)),
    ensures
        distributed(plan, partitions, *add_partition, *repartition, outcome),
{
    match add_partition(plan) {
        Ok(extended) => repartition(extended, partitions),
        Err(error) => Err(error),
    }
}

/// Co-locates the two sides of a merge by partition where that is possible, and
/// hands both back as they are where it is not: where the target is not
/// partitioned, where the join keys leave a partition column out, or where a partition
/// transform does not go with hashing.
///
/// `add_partition` adds the partition column to a plan, and `repartition`
/// distributes a plan by that column. The target comes first; if it cannot be
/// distributed, the source is not looked at.
pub fn optimize_merge_for_partitions<
    P,
    E,
    A: Fn(P) -> Result<P, E>,
    R: Fn(P, usize) -> Result<P, E>,
>(
    target: P,
    source: P,
    join_keys: &[(String, String)],
    table: &Table,
    target_partitions: usize,
    add_partition: A,
    repartition: R,
) -> (result: Result<(P, P), E>)
    requires
        target_partitions > 0,
        forall|p: P| #[trigger] add_partition.requires((p,)),
        forall|p: P| #[trigger] repartition.requires((p, target_partitions)),
    ensures
        !co_located(*table, join_keys@) ==> result == Ok::<(P, P), E>((target, source)),
        co_located(*table, join_keys@) ==> match result {
            Ok((new_target, new_source)) => {
                &&& distributed(
                    target,
                    target_partitions,
                    add_partition,
                    repartition,
                    Ok(new_target),
                )
                &&& distributed(
                    source,
                    target_partitions,
                    add_partition,
                    repartition,
                    Ok(new_source),
                )
            },
            Err(error) => {
                ||| distributed(target, target_partitions, add_partition, repartition, Err(error))
                ||| {
                    &&& exists|new_target: P| #[trigger]
                        distributed(
                            target,
                            target_partitions,
                            add_partition,
                            repartition,
                            Ok::<P, E>(new_target),
                        )
                    &&& distributed(
                        source,
                        target_partitions,
                        add_partition,
                        repartition,
                        Err(error),
                    )
                }
            },
        },
{
    if !co_locates(table, join_keys) {
        return Ok((target, source));
    }
    match distribute(target, target_partitions, &add_partition, &repartition) {
        Err(error) => Err(error),
        Ok(new_target) => match distribute(
            source,
            target_partitions,
            &add_partition,
            &repartition,
        ) {
            Err(error) => Err(error),
            Ok(new_source) => Ok((new_target, new_source)),
        },
    }
}

/// More join keys never take the possibility away.
pub proof fn applicable_with_more_keys(
    partition_fields: Seq<PartitionFieldInfo>,
    join_keys: Seq<(String, String)>,
    more: Seq<(String, String)>,
)
    requires
        applicable(partition_fields, join_keys),
    ensures
        applicable(partition_fields, join_keys + more),
{
    assert forall|i: int| 0 <= i < partition_fields.len() implies co_locatable(
        #[trigger] partition_fields[i],
        join_keys + more,
    ) by {
        assert(co_locatable(partition_fields[i], join_keys));
        let k = choose|k: int|
            0 <= k < join_keys.len() && (#[trigger] join_keys[k]).0@ == partition_fields[i].name;
        assert((join_keys + more)[k].0@ == partition_fields[i].name);
    }
}

/// A merge that co-locates the two sides also does with more join keys.
pub proof fn co_located_with_more_keys(
    table: Table,
    join_keys: Seq<(String, String)>,
    more: Seq<(String, String)>,
)
    requires
        co_located(table, join_keys),
    ensures
        co_located(table, join_keys + more),
{
    let partition_fields = default_partition_fields(table_metadata(table));
    let schema = files::current_schema(table_metadata(table));
    assert forall|i: int| 0 <= i < partition_fields.len() implies covered(
        #[trigger] partition_fields[i],
        *schema,
        join_keys + more,
    ) by {
        assert(covered(partition_fields[i], *schema, join_keys));
        let column = column_name(*schema, partition_fields[i].source_id)->Some_0;
        let k = choose|k: int| 0 <= k < join_keys.len() && (#[trigger] join_keys[k]).0@ == column;
        assert((join_keys + more)[k].0@ == column);
    }
}

/// Only the target side of the join keys counts, and only which columns it names:
/// neither their order nor the source side matters.
pub proof fn applicable_by_target_columns(
    partition_fields: Seq<PartitionFieldInfo>,
    join_keys: Seq<(String, String)>,
    other_keys: Seq<(String, String)>,
)
    requires
        forall|column: Seq<char>| #[trigger]
            is_join_key(column, join_keys) == is_join_key(column, other_keys),
    ensures
        applicable(partition_fields, join_keys) == applicable(partition_fields, other_keys),
{
    assert forall|i: int| 0 <= i < partition_fields.len() implies co_locatable(
        #[trigger] partition_fields[i],
        join_keys,
    ) == co_locatable(partition_fields[i], other_keys) by {
        assert(is_join_key(partition_fields[i].name, join_keys) == is_join_key(
            partition_fields[i].name,
            other_keys,
        ));
    }
}

/// Fields that do not stand in the way, if there are any, are bare columns or buckets:
/// no table is both unpartitioned and, with a field, open to the optimization.
pub proof fn partitioned_if_applicable(
    partition_fields: Seq<PartitionFieldInfo>,
    join_keys: Seq<(String, String)>,
)
    requires
        applicable(partition_fields, join_keys),
        partition_fields.len() > 0,
    ensures
        !unpartitioned(partition_fields),
        forall|i: int|
            0 <= i < partition_fields.len() ==> (
            #[trigger] partition_fields[i]).transform.hash_compatible(),
{
    assert(co_locatable(partition_fields[0], join_keys));
    assert forall|i: int| 0 <= i < partition_fields.len() implies (
    #[trigger] partition_fields[i]).transform.hash_compatible() by {
        assert(co_locatable(partition_fields[i], join_keys));
    }
}

} // verus!
