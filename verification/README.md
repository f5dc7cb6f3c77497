# parq

NDJSON → Parquet conversion. The library (`src/`) is written in Verus. Its
functions carry `requires`/`ensures` contracts that Verus proves, except the
small trusted wrappers around outside crates (marked
`#[verifier::external_body]`), whose contracts are assumed; the properties
that span several functions are stated as proof functions (`lemma_*`).

| Module    | What it holds |
|-----------|---------------|
| `chunk`   | splitting the input into newline-aligned windows; newline counts |
| `lines`   | line splitting, ASCII trimming, the UTF-8 byte-order mark |
| `json`    | the JSON values the logic reads (parsed by `serde_json`) |
| `assoc`   | ordered key/value lists and their writes |
| `flatten` | flattening nested objects into `parent_child` keys |
| `integer` | the `i64` grammar of string cells |
| `schema`  | field types, type promotion, schema inference, the schema file format |
| `parser`  | one chunk of NDJSON → batches of typed columns (strict and lenient modes) |
| `codec`   | compression codec names |
| `config`  | pipeline configuration |
| `metrics` | run statistics |
| `report`  | the JSON printed by `--machine-telemetry` and by `--quiet` |

Calls into outside crates (`serde_json`, `crossbeam-channel`, `num_cpus`)
and a few std functions go through those wrappers, each with a doc comment
that says what its contract claims.

`app/` is the command-line program: memory-mapping the input, the Rayon
thread pool, the in-order chunk loop that applies `--limit` across chunks
(its step, `parser::limit_after_chunk`, and the law that the run keeps
`min(N, rows)` rows are in `src/`), the bounded channel to the Parquet writer thread, the Arrow and
Parquet conversion, the dead-letter file, logging, and the floating-point
rates of the printed metrics.
