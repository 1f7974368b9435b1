# namma-diesel

Generates Rust [Diesel](https://diesel.rs) code from namma-dsl storage specs:
one YAML spec per table becomes a `diesel::table!` schema, the row and insert
model structs, text-backed enums for the spec's `types:` block, an up/down SQL
migration pair, and the `Cargo.toml` / `src/lib.rs` of a buildable crate.

The library is written in Verus. Every generator is specified by a spec
function over plain sequences, and the executable code is proved to produce
exactly that text; the properties the generator promises (timestamps are always
present, a table without a primary key is refused, imports are never repeated,
enum imports point at the generated module, dependencies are sorted with the
project's own entries winning, and so on) are stated and proved as `law_*`
proof functions next to the code they speak of.

## Layout

- `src/yaml.rs` — a YAML document as plain values; parsing goes through
  `serde_norway`.
- `src/parser.rs` — spec text to the `TableDef` IR (`ir.rs`), with the
  injected `createdAt`/`updatedAt` fields and the key lists.
- `src/config.rs` — the project's type registry and base dependencies.
- `src/typemap.rs` — spec type to Rust / Diesel / Postgres facets, including
  list types `[T]` (`Vec<T>`, `Array<..>`, `T[]`).
- `src/codegen.rs` — the schema, model, enum, migration, `Cargo.toml` and
  `lib.rs` generators.
- `src/cli.rs` — the crate name derived from the output directory and the
  full list of files of one run.
- `src/verify.rs` — what a rustfmt or `cargo check` run means: formatting
  only warns, a failed check is a hard error carrying the compiler output.
- `src/text.rs` — string operations the above are written with, each with
  its specification.
- `app/` — the `namma-diesel` command: argument parsing, reading the spec
  and the TOML config, writing files, and starting `rustfmt` and `cargo check`.
- `tests/` — tests run against the compiled library.

## Usage

```bash
namma-diesel generate --spec ./spec/Storage/Ride.yaml --out ./generated-rust \
    --config ./namma-diesel.toml [--no-verify]
```

The config file declares the project's custom types and base dependencies:

```toml
[types.HighPrecMoney]
rust = "Decimal"
diesel = "Numeric"
pg = "numeric"
import = "rust_decimal::Decimal"
crate = 'rust_decimal = "1"'

[cargo.dependencies]
serde = '{ version = "1", features = ["derive"] }'
```
