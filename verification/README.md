# declmig-lib-core

Domain policy and schema-parity checking for Declarative Migrations, verified
with Verus.

Diesel and SeaORM independently project the agreed database. This crate reads
both projections, normalizes them and compares them structurally; neither
projection wins when they disagree, and any difference makes the report
incompatible.

## Layout

- `src/schema.rs`, `src/config.rs`, `src/connection.rs`: the fail-closed
  release policy, database configuration and the read-only connection guard.
- `src/schema_parity/`: the projection model (`model.rs`), normalization
  (`normalize.rs`), comparison (`compare.rs`), the Diesel `table!` reader
  (`diesel.rs`), the SeaORM entity reader (`seaorm.rs`), and the properties
  proved of them for every input (`laws.rs`, with `fixpoint.rs` and
  `mirror.rs`).
- `src/cli.rs`: the argument grammar of the cross-check tool.
- `src/text.rs`, `src/order.rs`: text and ordering primitives with their
  specifications.
- `app/`: the `declmig-schema-crosscheck` program: files, JSON documents,
  the environment and exit codes around the library.

Every public function states what it returns over a mathematical view of its
inputs; `src/schema_parity/laws.rs` states what holds across functions, such
as that normalization is idempotent and that parity is symmetric.
