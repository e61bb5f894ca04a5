//! When the two sides of a merge are co-located by partition.

use std::collections::HashMap;

use iceberg::io::FileIO;
use iceberg::spec::{
    NestedField, PrimitiveType, Schema, TableMetadataBuilder, Type, UnboundPartitionSpec,
};
use iceberg::table::Table;
use iceberg::{TableCreation, TableIdent};
use iceberg_row_updates::partition_merge::{
    PartitionField, Transform, co_locates, is_optimization_applicable, is_unpartitioned,
    optimize_merge_for_partitions, partition_columns,
};

fn field(name: &str, transform: Transform) -> PartitionField {
    PartitionField { source_id: 1, field_id: 1000, name: name.to_string(), transform }
}

fn keys(pairs: &[(&str, &str)]) -> Vec<(String, String)> {
    pairs.iter().map(|(target, source)| (target.to_string(), source.to_string())).collect()
}

fn partitioned_table(fields: &[(&str, iceberg::spec::Transform)]) -> Table {
    let schema = Schema::builder()
        .with_schema_id(0)
        .with_fields(vec![
            NestedField::required(1, "region", Type::Primitive(PrimitiveType::String)).into(),
            NestedField::required(2, "year", Type::Primitive(PrimitiveType::Int)).into(),
        ])
        .build()
        .unwrap();
    let mut spec = UnboundPartitionSpec::builder();
    for (i, (name, transform)) in fields.iter().enumerate() {
        spec = spec.add_partition_field(i as i32 + 1, *name, *transform).unwrap();
    }
    let creation = TableCreation::builder()
        .name("t".to_string())
        .location("memory://root/t".to_string())
        .schema(schema)
        .partition_spec(spec.build())
        .properties(HashMap::new())
        .build();
    let metadata = TableMetadataBuilder::from_table_creation(creation).unwrap().build().unwrap();
    Table::builder()
        .file_io(FileIO::new_with_memory())
        .metadata(metadata.metadata)
        .identifier(TableIdent::from_strs(["ns", "t"]).unwrap())
        .build()
        .unwrap()
}

fn optimize(
    table: &Table,
    join_keys: &[(String, String)],
    broken: &str,
) -> Result<(String, String), String> {
    optimize_merge_for_partitions(
        "target".to_string(),
        "source".to_string(),
        join_keys,
        table,
        8,
        |plan: String| {
            if plan == broken { Err(format!("no partition for {plan}")) } else { Ok(plan + "+p") }
        },
        |plan: String, partitions: usize| -> Result<String, String> {
            Ok(format!("{plan}/{partitions}"))
        },
    )
}

#[test]
fn test_is_optimization_applicable_identity_transform() {
    let partition_fields = vec![PartitionField {
        source_id: 1,
        field_id: 1000,
        name: "region".to_string(),
        transform: Transform::Identity,
    }];

    let join_keys = vec![("region".to_string(), "region".to_string())];

    assert!(is_optimization_applicable(&partition_fields, &join_keys));
}

#[test]
fn test_is_optimization_applicable_bucket_transform() {
    let partition_fields = vec![PartitionField {
        source_id: 1,
        field_id: 1000,
        name: "id".to_string(),
        transform: Transform::Bucket(16),
    }];

    let join_keys = vec![("id".to_string(), "id".to_string())];

    assert!(is_optimization_applicable(&partition_fields, &join_keys));
}

#[test]
fn test_is_optimization_not_applicable_missing_partition_column() {
    let partition_fields = vec![
        PartitionField {
            source_id: 1,
            field_id: 1000,
            name: "region".to_string(),
            transform: Transform::Identity,
        },
        PartitionField {
            source_id: 2,
            field_id: 1001,
            name: "year".to_string(),
            transform: Transform::Year,
        },
    ];

    // Only region in join keys, missing year
    let join_keys = vec![("region".to_string(), "region".to_string())];

    assert!(!is_optimization_applicable(&partition_fields, &join_keys));
}

#[test]
fn test_is_optimization_not_applicable_temporal_transform() {
    let partition_fields = vec![PartitionField {
        source_id: 1,
        field_id: 1000,
        name: "timestamp".to_string(),
        transform: Transform::Day,
    }];

    let join_keys = vec![("timestamp".to_string(), "timestamp".to_string())];

    // Day transform is not hash-compatible
    assert!(!is_optimization_applicable(&partition_fields, &join_keys));
}

#[test]
fn test_is_optimization_applicable_multiple_partitions() {
    let partition_fields = vec![
        PartitionField {
            source_id: 1,
            field_id: 1000,
            name: "region".to_string(),
            transform: Transform::Identity,
        },
        PartitionField {
            source_id: 2,
            field_id: 1001,
            name: "category".to_string(),
            transform: Transform::Bucket(8),
        },
    ];

    let join_keys = vec![
        ("region".to_string(), "region".to_string()),
        ("category".to_string(), "category".to_string()),
    ];

    assert!(is_optimization_applicable(&partition_fields, &join_keys));
}

#[test]
fn test_is_optimization_not_applicable_void_transform() {
    let partition_fields = vec![PartitionField {
        source_id: 1,
        field_id: 1000,
        name: "deleted".to_string(),
        transform: Transform::Void,
    }];

    let join_keys = vec![("deleted".to_string(), "deleted".to_string())];

    assert!(!is_optimization_applicable(&partition_fields, &join_keys));
}

#[test]
fn every_other_transform_stands_in_the_way() {
    let join_keys = keys(&[("c", "c")]);
    for transform in [
        Transform::Year,
        Transform::Month,
        Transform::Hour,
        Transform::Truncate(4),
        Transform::Unknown,
    ] {
        assert!(!is_optimization_applicable(&[field("c", transform)], &join_keys));
    }
    assert!(is_optimization_applicable(&[], &join_keys));
}

#[test]
fn only_the_target_side_of_a_key_counts() {
    let fields = [field("region", Transform::Identity)];
    assert!(!is_optimization_applicable(&fields, &keys(&[("r", "region")])));
    assert!(is_optimization_applicable(&fields, &keys(&[("region", "r")])));
    // More keys, in another order.
    assert!(is_optimization_applicable(&fields, &keys(&[("x", "x"), ("region", "r")])));
}

#[test]
fn void_fields_do_not_partition() {
    assert!(is_unpartitioned(&[]));
    assert!(is_unpartitioned(&[field("a", Transform::Void), field("b", Transform::Void)]));
    assert!(!is_unpartitioned(&[field("a", Transform::Void), field("b", Transform::Identity)]));
}

#[test]
fn both_sides_are_distributed() {
    let table = partitioned_table(&[
        ("region", iceberg::spec::Transform::Identity),
        ("year_bucket", iceberg::spec::Transform::Bucket(4)),
    ]);
    let join_keys = keys(&[("region", "region"), ("year", "year")]);
    assert!(co_locates(&table, &join_keys));
    let plans = optimize(&table, &join_keys, "").unwrap();
    assert_eq!(plans, ("target+p/8".to_string(), "source+p/8".to_string()));
    // More keys do no harm.
    let more = keys(&[("region", "region"), ("year", "year"), ("x", "y")]);
    assert_eq!(optimize(&table, &more, "").unwrap(), plans);
}

#[test]
fn keys_name_columns_and_not_partition_fields() {
    let unchanged = ("target".to_string(), "source".to_string());
    let table = partitioned_table(&[("region_bucket", iceberg::spec::Transform::Bucket(16))]);
    let by_column = keys(&[("region", "region")]);
    assert_eq!(
        optimize(&table, &by_column, "").unwrap(),
        ("target+p/8".to_string(), "source+p/8".to_string())
    );
    let by_field = keys(&[("region_bucket", "region_bucket")]);
    assert!(!co_locates(&table, &by_field));
    assert_eq!(optimize(&table, &by_field, "").unwrap(), unchanged);
}

#[test]
fn partition_fields_go_by_their_columns() {
    let table = partitioned_table(&[("region_bucket", iceberg::spec::Transform::Bucket(16))]);
    let schema = table.metadata().current_schema();
    let fields = [field("region_bucket", Transform::Bucket(16))];
    let columns = partition_columns(&fields, schema).unwrap();
    assert_eq!(columns.len(), 1);
    assert_eq!(columns[0].name, "region");
    assert_eq!(columns[0].source_id, 1);
    assert_eq!(columns[0].field_id, 1000);
    assert_eq!(columns[0].transform, Transform::Bucket(16));
    let dropped = PartitionField { source_id: 9, ..field("gone", Transform::Identity) };
    assert!(partition_columns(&[dropped], schema).is_none());
}

#[test]
fn plans_stay_where_a_field_stands_in_the_way() {
    let unchanged = ("target".to_string(), "source".to_string());
    let by_region = partitioned_table(&[("region", iceberg::spec::Transform::Identity)]);
    assert_eq!(optimize(&by_region, &keys(&[("year", "year")]), "").unwrap(), unchanged);
    let truncated = partitioned_table(&[("region_head", iceberg::spec::Transform::Truncate(2))]);
    assert_eq!(optimize(&truncated, &keys(&[("region", "region")]), "").unwrap(), unchanged);
    let unpartitioned = partitioned_table(&[]);
    assert_eq!(optimize(&unpartitioned, &keys(&[("region", "region")]), "").unwrap(), unchanged);
}

#[test]
fn the_first_failure_is_told() {
    let table = partitioned_table(&[("region", iceberg::spec::Transform::Identity)]);
    let join_keys = keys(&[("region", "region")]);
    assert_eq!(
        optimize(&table, &join_keys, "target").unwrap_err(),
        "no partition for target".to_string()
    );
    assert_eq!(
        optimize(&table, &join_keys, "source").unwrap_err(),
        "no partition for source".to_string()
    );
}
