# crm_migration

The verified decision core of a CRM migration engine that refreshes already
imported people metadata, notes, tasks and history facts from newer retained
source evidence. The functions under `src/` are verified with Verus against
contracts written over mathematical models (`Seq`, `Set`, `Map`, `int`). The
exceptions are the small `#[verifier::external_body]` wrappers around outside
crates (chrono, serde_json, uuid, chacha20poly1305, hmac/sha2, rand): each makes
one call, and its contract is trusted, not proved; a doc comment above each says
what it claims.

Layout:

- `src/family_refresh/` — the refresh pipeline: the policy model and counts
  (`model`), person metadata proposals (`metadata_delta`, `metadata_baseline`),
  note/task proposals (`activity_delta`, `activity_baseline`), native after-state
  proofs (`native_baseline`), row drafts (`native_proof`), mapping choices
  (`mapping_inventory`, `mapping_selection`), core record reconciliation
  (`core_resolution`), source conversion and history indexing
  (`metadata_mapping`, `history_index`), unit bookkeeping (`manifest`, `history_plan`), execution
  rechecks (`execution`, `activity_execution`), control commands (`commands`,
  `lifecycle`, `confirmation`) and bounded read models (`*_queries`).
- `src/core_change_*` — change reports between two core captures.
- `src/crypto.rs`, `src/family_refresh/evidence.rs` — sealing of payloads bound
  to tenant, row, revision and purpose (XChaCha20-Poly1305, HMAC-SHA-256).
- `src/coverage_inventory.rs` — the closed coverage vocabulary.
- `app/` — serialization edges (serde wire forms, streamed JSON evidence).
- `tests/` — scenario tests run against the compiled library.

Database access, leases and transactions stay with the caller: each decision
here takes the rows it needs as plain values and returns the next step.
