//! The parts of an UPDATE are all there.

use std::sync::Arc;

use datafusion::arrow::datatypes::Schema;
use iceberg_row_updates::node::{NodeProperties, PlanInput};
use iceberg_row_updates::update_commit::{IcebergUpdateCommitExec, RowDelta};
use iceberg_row_updates::update_write::IcebergUpdateWriteExec;

#[test]
fn test_update_infrastructure_compiles() {
    let write = IcebergUpdateWriteExec::<String, String, String>::make_result_schema();
    let commit = IcebergUpdateCommitExec::<String, String>::make_count_schema();
    assert_eq!(write.fields().len(), 2);
    assert_eq!(commit.fields().len(), 1);
    let input = PlanInput { plan: "scan".to_string(), partition_count: 3 };
    let schema = Arc::new(Schema::empty());
    let properties: NodeProperties =
        IcebergUpdateWriteExec::<String, String, String>::compute_properties(&input, schema);
    assert_eq!(properties.partition_count, 3);

    println!("UPDATE infrastructure compiled successfully");
}

#[test]
fn test_row_delta_available() {
    let delta = RowDelta { added: Some(vec![]), removed: None, count: 0 };
    assert!(delta.added.is_some());
    assert!(delta.removed.is_none());
    assert_eq!(delta.count, 0);

    println!("RowDelta available for UPDATE operations");
}
