# semanticweft

A verified library for the SemanticWeft protocol: Semantic Units, their
validation, the unit graph and its rendering, Ed25519 proofs, agent
addressing and sessions, and the request decisions, storage and federation
rules of a SemanticWeft node. Verus checks the functions of `src/` against
their `requires`/`ensures` contracts; the small wrappers in `src/external.rs`
(and two `String` appends in `src/text.rs`) call outside crates, and their
contracts are assumed, not proved.

## Layout

- `src/` — the library, one module per concern:
  - `types`, `validation`, `graph`, `render`, `signing`, `embed` — units;
  - `address`, `session`, `identity`, `cli` — agents and clients;
  - `api`, `node`, `directory`, `auth`, `storage`, `fanout`, `federation`,
    `rate_limit`, `config` — the node;
  - `text`, `keyed` — text and keyed-sequence helpers with their lemmas;
  - `external` — the contracts assumed of the outside crates (uuid, chrono,
    httpdate, bs58, ed25519-dalek, hex, serde_json, reqwest's URL parser,
    urlencoding, regex).
- `tests/` — tests of the library.
- `app/` — the node server (axum, SQLite, background sync and discovery) and
  the `sweft` command-line client. JSON, HTTP, the database and the clock
  live here, and so does the floating-point reputation arithmetic (vote
  thresholds and weighting) and the two-decimal confidence text; the other
  decisions, including each hop of the subgraph walk and the paging of
  listings, are calls into the library.
