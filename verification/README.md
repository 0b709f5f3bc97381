# szrsql-sql

The SQL front end of SzRSQL, verified with Verus: statement splitting and parsing,
the rewriting of MySQL-style `SET`/`SHOW` forms, the hand-written parsers for the
statements sqlparser does not read, the catalog that planning consults, partition
strategies, and the shadow-table engine for online schema changes.

## Layout

- `src/text.rs`, `src/sql_text.rs`: character-level helpers (whitespace, ASCII case,
  trimming, searching, decimal rendering).
- `src/split.rs`: splitting a text into statements, aware of quotes, comments and
  dollar-quoted bodies.
- `src/normalize.rs`: the textual rewrites applied before parsing.
- `src/manual.rs`, `src/create_function.rs`: the hand-written statement parsers.
- `src/parser.rs`: `parse_sql` and its companions, which combine sqlparser with the
  hand-written parsers and return the statements in text order.
- `src/ast.rs`: the statement and catalog value types.
- `src/assoc.rs`: association lists keyed by text, with their laws.
- `src/plan.rs`: planning errors and the in-memory catalog.
- `src/partition.rs`: partition strategies.
- `src/online_ddl.rs`: the shadow-table schema-change engine.
- `app/lib.rs`: what stays outside the verified library: the floating-point progress
  figures, the error types as `std::error::Error`, and the serde records of the catalog.

Contracts are stated over `Seq`/`Map`-style views; where a result comes from sqlparser,
the standard library's Unicode tables or the clock, the trusted wrapper that makes the
call says so in its doc comment.

## What the library does not hold

- The statements sqlparser reads are kept as sqlparser's own values, tagged with their
  kind; they are not converted into a statement tree of their own, and expressions are
  not converted or depth-checked.
- There is no query planner, no logical plan, no partition bounds, routing or pruning
  beyond the partition strategies, and no covering index: these rest on a value type
  and a statement tree that are not part of this crate.
- The catalog has no CHECK constraints, triggers or views.
- Texts holding both `GRANTED` and `BY`, or both `RELAY` and `LOGS` (any case), are
  refused before they reach sqlparser, whose parser can panic on `GRANTED BY` and
  `FLUSH RELAY LOGS FOR CHANNEL`.

## Design notes

- sqlparser's result reaches the library as each statement's `Debug` rendering beside
  the statement itself; which statements are accepted, and with which kind, is decided
  by verified code over that rendering (`statement_kind`, `debug_kind`).
- Keyed tables (the catalog's tables, the executor's tasks) are association vectors
  with a stated invariant that no key occurs twice. `HashMap` with `String` keys was
  not tried: with such keys vstd's specification lets little be proved of a lookup,
  while a vector with that invariant gives exact contracts.
