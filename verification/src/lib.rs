pub mod assignments;
pub mod batch;
pub mod capacity;
pub mod columns;
pub mod error;
pub mod files;
pub mod merge;
pub mod merge_laws;
pub mod merge_rows;
pub mod merge_write;
pub mod node;
pub mod partition_merge;
pub mod plan_laws;
pub mod text;
pub mod types;
pub mod update_commit;
pub mod update_laws;
pub mod update_write;
pub mod write_laws;
pub mod write_result;
