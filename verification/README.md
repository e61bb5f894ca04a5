# iceberg_row_updates

Row-level changes of Iceberg tables, as steps of a DataFusion plan: MERGE INTO and
UPDATE, both by writing the changed rows to new files and replacing the old ones.

- `src/` is the verified library. It classifies joined rows, assigns new values,
  reports the files that were written, and decides what is committed. Arrow and
  Iceberg values are opaque there: `types.rs`, `columns.rs` and `files.rs` say what is
  believed of the functions of those crates, and what follows is proved from it.
- `tests/` runs the library with the real crates.
- `app/` turns the nodes into DataFusion plans: it joins, scans, writes, commits and
  logs.
